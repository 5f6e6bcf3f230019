//! The error taxonomy of the engine, and the classification of failure
//! text into it.
//!
//! Build errors are surfaced immediately and never retried; transport
//! failures and error statuses are retried under the retry policy; stream
//! usage errors and text-decode errors are surfaced on first occurrence.

use vstd::prelude::*;

use crate::text::{contains_seq, lower_seq, lower_str, str_contains};

verus! {

/// The kind of a request failure.
#[derive(Clone, Copy, Debug, PartialEq, Eq, Structural)]
pub enum ErrorKind {
    ConnectTimeout,
    ReadTimeout,
    WriteTimeout,
    ConnectError,
    ReadError,
    WriteError,
    ProxyError,
    TooManyRedirects,
    DecodingError,
    HttpStatusError,
    RequestError,
    InvalidUrl,
    BuildError,
}

/// Whether a failure of this kind may be retried: transport-level
/// failures and error statuses are, build-time failures are not.
pub open spec fn spec_is_retryable(k: ErrorKind) -> bool {
    !(k is BuildError || k is InvalidUrl)
}

impl ErrorKind {
    pub fn is_retryable(&self) -> (r: bool)
        ensures
            r == spec_is_retryable(*self),
    {
        !(matches!(self, ErrorKind::BuildError) || matches!(self, ErrorKind::InvalidUrl))
    }
}

/// The kind read from a failure's text, scanned case-insensitively:
/// URL syntax first, then timeouts split by direction, then connection
/// and TLS problems, then missing files and proxies; anything else is a
/// generic request error.
pub open spec fn spec_classify_text(t: Seq<char>) -> ErrorKind {
    let l = lower_seq(t);
    if contains_seq(l, "url"@) || contains_seq(l, "uri"@) {
        ErrorKind::InvalidUrl
    } else if contains_seq(l, "timeout"@) || contains_seq(l, "timed out"@) {
        spec_classify_timeout_text(t)
    } else if contains_seq(l, "connect"@) || contains_seq(l, "dns error"@) {
        ErrorKind::ConnectError
    } else if contains_seq(l, "no such file"@) || contains_seq(l, "not found"@) {
        ErrorKind::RequestError
    } else if contains_seq(l, "proxy"@) {
        ErrorKind::ProxyError
    } else if contains_seq(l, "ssl"@) || contains_seq(l, "tls"@) || contains_seq(
        l,
        "certificate"@,
    ) {
        ErrorKind::ConnectError
    } else {
        ErrorKind::RequestError
    }
}

/// The direction of a timeout, read from its text; a timeout of no
/// stated direction counts as a read timeout.
pub open spec fn spec_classify_timeout_text(t: Seq<char>) -> ErrorKind {
    let l = lower_seq(t);
    if contains_seq(l, "connect"@) {
        ErrorKind::ConnectTimeout
    } else if contains_seq(l, "read"@) || contains_seq(l, "recv"@) {
        ErrorKind::ReadTimeout
    } else if contains_seq(l, "write"@) || contains_seq(l, "send"@) {
        ErrorKind::WriteTimeout
    } else {
        ErrorKind::ReadTimeout
    }
}

/// Classifies a failure's text into the taxonomy.
pub fn classify_error_text(t: &str) -> (r: ErrorKind)
    ensures
        r == spec_classify_text(t@),
{
    let l = lower_str(t);
    let ls = l.as_str();
    if str_contains(ls, "url") || str_contains(ls, "uri") {
        ErrorKind::InvalidUrl
    } else if str_contains(ls, "timeout") || str_contains(ls, "timed out") {
        classify_timeout_text(t)
    } else if str_contains(ls, "connect") || str_contains(ls, "dns error") {
        ErrorKind::ConnectError
    } else if str_contains(ls, "no such file") || str_contains(ls, "not found") {
        ErrorKind::RequestError
    } else if str_contains(ls, "proxy") {
        ErrorKind::ProxyError
    } else if str_contains(ls, "ssl") || str_contains(ls, "tls") || str_contains(
        ls,
        "certificate",
    ) {
        ErrorKind::ConnectError
    } else {
        ErrorKind::RequestError
    }
}

/// Classifies the text of a failure already known to be a timeout.
pub fn classify_timeout_text(t: &str) -> (r: ErrorKind)
    ensures
        r == spec_classify_timeout_text(t@),
{
    let l = lower_str(t);
    let ls = l.as_str();
    if str_contains(ls, "connect") {
        ErrorKind::ConnectTimeout
    } else if str_contains(ls, "read") || str_contains(ls, "recv") {
        ErrorKind::ReadTimeout
    } else if str_contains(ls, "write") || str_contains(ls, "send") {
        ErrorKind::WriteTimeout
    } else {
        ErrorKind::ReadTimeout
    }
}

} // verus!
