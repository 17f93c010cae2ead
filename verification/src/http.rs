//! Checks that tell whether a buffer could hold an HTTP request, and the
//! selection of requests by header name and value.

use crate::filter::{accepted_filter, pattern_is_accepted, HeaderFilter};
use crate::probe::{
    classify, h2_preface, parse_request_head, request_head_parse, HeadParse, HttpVersion,
    ParseError, MINIMAL_HTTP1_REQUEST_LEN,
};
use crate::protocol::RegexFilter;
use vstd::prelude::*;

verus! {

/// Selects headers by a pattern for the name and a pattern for the value.
#[derive(Debug, PartialEq, Eq)]
pub struct HttpHeaderSelect {
    name: HeaderFilter,
    value: HeaderFilter,
}

impl View for HttpHeaderSelect {
    type V = (Seq<char>, Seq<char>);

    closed spec fn view(&self) -> (Seq<char>, Seq<char>) {
        (self.name@, self.value@)
    }
}

impl HttpHeaderSelect {
    /// A selection by two patterns, which have to be taken as filters.
    pub fn new(header_name: &str, header_value: &str) -> (select: HttpHeaderSelect)
        requires
            accepted_filter(header_name@),
            accepted_filter(header_value@),
        ensures
            select@ == (header_name@, header_value@),
    {
        HttpHeaderSelect {
            name: HeaderFilter::from_checked(header_name),
            value: HeaderFilter::from_checked(header_value),
        }
    }

    /// A selection by two patterns, if both are taken as filters.
    pub fn try_new(header_name: &str, header_value: &str) -> (select: Option<HttpHeaderSelect>)
        ensures
            select.is_some() == (accepted_filter(header_name@) && accepted_filter(header_value@)),
            select matches Some(s) ==> s@ == (header_name@, header_value@),
    {
        if pattern_is_accepted(header_name) && pattern_is_accepted(header_value) {
            Some(HttpHeaderSelect::new(header_name, header_value))
        } else {
            None
        }
    }

    /// The selection that a pair of patterns from the wire stands for, if both
    /// are taken as filters.
    pub fn from_regex_filter(filter: &RegexFilter) -> (select: Option<HttpHeaderSelect>)
        ensures
            select.is_some() == (accepted_filter(filter.0@) && accepted_filter(filter.1@)),
            select matches Some(s) ==> s@ == (filter.0@, filter.1@),
    {
        HttpHeaderSelect::try_new(filter.0.as_str(), filter.1.as_str())
    }

    /// The pair of patterns, as it goes over the wire.
    pub fn to_regex_filter(&self) -> (filter: RegexFilter)
        ensures
            (filter.0@, filter.1@) == self@,
    {
        RegexFilter(self.name.as_str().to_owned(), self.value.as_str().to_owned())
    }
}

/// Why a buffer is not taken for an HTTP request, or why serving one failed.
#[derive(Debug, PartialEq, Eq)]
pub enum HttpError {
    /// The buffer is empty.
    Empty,
    /// The buffer is shorter than the shortest request.
    TooSmall,
    /// Reading or writing failed.
    IO,
    /// The request parser turned the buffer down.
    Parse(ParseError),
    /// The HTTP library failed.
    Hyper,
    /// The serving task failed.
    Join,
    /// A selection could not be handed to the serving task.
    Sender(HttpHeaderSelect),
}

/// Whether a length is that of a possible request.
pub open spec fn length_verdict(length: nat) -> Result<(), HttpError> {
    if length == 0 {
        Err(HttpError::Empty)
    } else if length < MINIMAL_HTTP1_REQUEST_LEN {
        Err(HttpError::TooSmall)
    } else {
        Ok(())
    }
}

/// Checks that a request of this length is possible: the shortest request is
/// `GET / HTTP/1.1`.
pub fn valid_http1_length(length: usize) -> (verdict: Result<(), HttpError>)
    ensures
        verdict == length_verdict(length as nat),
{
    if length == 0 {
        Err(HttpError::Empty)
    } else if length < MINIMAL_HTTP1_REQUEST_LEN {
        Err(HttpError::TooSmall)
    } else {
        Ok(())
    }
}

/// What the parser's outcome says of a buffer: running out of header room is
/// no fault of the request.
pub open spec fn parse_verdict(outcome: HeadParse) -> Result<(), HttpError> {
    match outcome {
        HeadParse::Complete(_) => Ok(()),
        HeadParse::Partial => Ok(()),
        HeadParse::Invalid(ParseError::TooManyHeaders) => Ok(()),
        HeadParse::Invalid(error) => Err(HttpError::Parse(error)),
    }
}

/// Reads the parser's outcome.
pub fn request_verdict(outcome: HeadParse) -> (verdict: Result<(), HttpError>)
    ensures
        verdict == parse_verdict(outcome),
{
    match outcome {
        HeadParse::Complete(_) => Ok(()),
        HeadParse::Partial => Ok(()),
        HeadParse::Invalid(ParseError::TooManyHeaders) => Ok(()),
        HeadParse::Invalid(error) => Err(HttpError::Parse(error)),
    }
}

/// Checks whether `bytes` hold a mostly valid HTTP/1 request: long enough, and
/// accepted by the request parser as a whole or as a beginning.
pub fn valid_http1_request(bytes: &[u8]) -> (verdict: Result<(), HttpError>)
    ensures
        verdict == match length_verdict(bytes@.len()) {
            Err(error) => Err(error),
            Ok(()) => parse_verdict(request_head_parse(bytes@)),
        },
{
    match valid_http1_length(bytes.len()) {
        Err(error) => Err(error),
        Ok(()) => request_verdict(parse_request_head(bytes)),
    }
}

/// What is known of a connection after a peek: `Some(true)` if it is to be
/// treated as HTTP, `Some(false)` if not, and `None` as long as too few bytes
/// have arrived to tell. A connection that closed without data is not HTTP.
pub open spec fn http_verdict(peeked: Seq<u8>) -> Option<bool> {
    if peeked.len() >= MINIMAL_HTTP1_REQUEST_LEN {
        Some(classify(peeked, h2_preface()) != HttpVersion::NotHttp)
    } else if peeked.len() == 0 {
        Some(false)
    } else {
        None
    }
}

/// Decides from the bytes peeked so far whether a connection is to be treated
/// as HTTP. This is a best-effort classification, not a guarantee that the
/// request is well-formed. While the answer is `None`, peek again.
pub fn is_http(peeked: &[u8]) -> (verdict: Option<bool>)
    ensures
        verdict == http_verdict(peeked@),
{
    if peeked.len() >= MINIMAL_HTTP1_REQUEST_LEN {
        match HttpVersion::detect(peeked) {
            HttpVersion::NotHttp => Some(false),
            _ => Some(true),
        }
    } else if peeked.len() == 0 {
        Some(false)
    } else {
        None
    }
}

} // verus!
