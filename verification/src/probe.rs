//! Best-effort classification of the first bytes of a connection.

use vstd::prelude::*;

verus! {

/// Number of bytes looked at when classifying a fresh connection.
pub const MINIMAL_HEADER_SIZE: usize = 64;

/// Length of the shortest request line that is accepted as HTTP/1,
/// `GET / HTTP/1.1`, which is also the length of the HTTP/2 preface.
pub const MINIMAL_HTTP1_REQUEST_LEN: usize = 14;

/// Why the HTTP/1 parser turned a buffer down.
#[derive(Clone, Copy, Debug, PartialEq, Eq, Structural)]
pub enum ParseError {
    /// Invalid byte in a header name.
    HeaderName,
    /// Invalid byte in a header value.
    HeaderValue,
    /// Invalid byte in a line ending.
    NewLine,
    /// Invalid byte in a response status.
    Status,
    /// Invalid byte where a token is required.
    Token,
    /// More headers than the parser was given room for.
    TooManyHeaders,
    /// Invalid byte in the HTTP version.
    Version,
}

/// What the HTTP/1 parser made of a buffer when given room for no header at all.
#[derive(Clone, Copy, Debug, PartialEq, Eq, Structural)]
pub enum HeadParse {
    /// A whole request head; the body starts at this offset.
    Complete(usize),
    /// A proper beginning of a request head.
    Partial,
    /// Not a request head.
    Invalid(ParseError),
}

/// The outcome of `httparse`'s request parser on `buffer` with an empty header table.
pub uninterp spec fn request_head_parse(buffer: Seq<u8>) -> HeadParse;

/// Runs `httparse::Request::parse` on `buffer` with room for zero headers.
///
/// Trusted: the result is the parser's outcome for these bytes, which depends on
/// nothing but the bytes. Nothing is claimed about which buffers are accepted.
#[verifier::external_body]
pub(crate) fn parse_request_head(buffer: &[u8]) -> (outcome: HeadParse)
    ensures
        outcome == request_head_parse(buffer@),
{
    let mut headers = [httparse::EMPTY_HEADER; 0];
    match httparse::Request::new(&mut headers).parse(buffer) {
        Ok(httparse::Status::Complete(offset)) => HeadParse::Complete(offset),
        Ok(httparse::Status::Partial) => HeadParse::Partial,
        Err(httparse::Error::HeaderName) => HeadParse::Invalid(ParseError::HeaderName),
        Err(httparse::Error::HeaderValue) => HeadParse::Invalid(ParseError::HeaderValue),
        Err(httparse::Error::NewLine) => HeadParse::Invalid(ParseError::NewLine),
        Err(httparse::Error::Status) => HeadParse::Invalid(ParseError::Status),
        Err(httparse::Error::Token) => HeadParse::Invalid(ParseError::Token),
        Err(httparse::Error::TooManyHeaders) => HeadParse::Invalid(ParseError::TooManyHeaders),
        Err(httparse::Error::Version) => HeadParse::Invalid(ParseError::Version),
    }
}

/// Whether a parser outcome leaves open that the bytes begin an HTTP/1 request.
///
/// Running out of header room means the request line itself was fine.
pub open spec fn could_be_http1(outcome: HeadParse) -> bool {
    match outcome {
        HeadParse::Complete(_) => true,
        HeadParse::Partial => true,
        HeadParse::Invalid(ParseError::TooManyHeaders) => true,
        HeadParse::Invalid(_) => false,
    }
}

/// Executable form of [`could_be_http1`].
pub fn accepts_as_http1(outcome: HeadParse) -> (accepted: bool)
    ensures
        accepted == could_be_http1(outcome),
{
    match outcome {
        HeadParse::Complete(_) => true,
        HeadParse::Partial => true,
        HeadParse::Invalid(ParseError::TooManyHeaders) => true,
        HeadParse::Invalid(_) => false,
    }
}

/// The opening bytes of the HTTP/2 client preface, `PRI * HTTP/2.0`.
pub open spec fn h2_preface() -> Seq<u8> {
    seq![80u8, 82u8, 73u8, 32u8, 42u8, 32u8, 72u8, 84u8, 84u8, 80u8, 47u8, 50u8, 46u8, 48u8]
}

/// Executable form of [`h2_preface`].
pub fn h2_preface_bytes() -> (preface: [u8; 14])
    ensures
        preface@ == h2_preface(),
{
    let preface: [u8; 14] = [80, 82, 73, 32, 42, 32, 72, 84, 84, 80, 47, 50, 46, 48];
    assert(preface@ =~= h2_preface());
    preface
}

/// The two sequences hold the same bytes as far as both reach.
///
/// A buffer shorter than the preface is thus compared with the preface cut to
/// the buffer's length, and a longer buffer only by its beginning.
pub open spec fn agree_on_common_prefix(a: Seq<u8>, b: Seq<u8>) -> bool {
    forall|i: int| 0 <= i < a.len() && i < b.len() ==> a[i] == b[i]
}

/// Executable form of [`agree_on_common_prefix`].
pub fn common_prefix_agrees(a: &[u8], b: &[u8]) -> (agree: bool)
    ensures
        agree == agree_on_common_prefix(a@, b@),
{
    let mut i: usize = 0;
    while i < a.len() && i < b.len()
        invariant
            forall|j: int| 0 <= j < i ==> a@[j] == b@[j],
            i <= a@.len(),
            i <= b@.len(),
        decreases a@.len() - i,
    {
        if a[i] != b[i] {
            return false;
        }
        i += 1;
    }
    true
}

/// Identifies the protocol that a connection seems to speak.
#[derive(Clone, Copy, Debug, PartialEq, Eq, PartialOrd, Ord, Structural)]
pub enum HttpVersion {
    /// HTTP/1: requests are parsed and routed by their headers.
    V1,
    /// HTTP/2: recognised, but passed through untouched.
    V2,
    /// Anything else: passed through untouched.
    NotHttp,
}

/// The version that follows from the two observations made on a buffer.
///
/// The preface wins over the request parser.
pub open spec fn version_of(matches_preface: bool, outcome: HeadParse) -> HttpVersion {
    if matches_preface {
        HttpVersion::V2
    } else if could_be_http1(outcome) {
        HttpVersion::V1
    } else {
        HttpVersion::NotHttp
    }
}

/// The version of a buffer, given the preface to hold it against.
pub open spec fn classify(buffer: Seq<u8>, preface: Seq<u8>) -> HttpVersion {
    version_of(agree_on_common_prefix(buffer, preface), request_head_parse(buffer))
}

impl HttpVersion {
    /// Combines the preface comparison and the parser's outcome into a version.
    pub fn from_observations(matches_preface: bool, outcome: HeadParse) -> (version: HttpVersion)
        ensures
            version == version_of(matches_preface, outcome),
    {
        if matches_preface {
            HttpVersion::V2
        } else if accepts_as_http1(outcome) {
            HttpVersion::V1
        } else {
            HttpVersion::NotHttp
        }
    }

    /// Classifies `buffer`: HTTP/2 if it agrees with `h2_preface` as far as both
    /// reach, else HTTP/1 if the request parser accepts it as a whole or as a
    /// beginning, else not HTTP.
    pub fn new(buffer: &[u8], h2_preface: &[u8]) -> (version: HttpVersion)
        ensures
            version == classify(buffer@, h2_preface@),
            agree_on_common_prefix(buffer@, h2_preface@) ==> version == HttpVersion::V2,
    {
        if common_prefix_agrees(buffer, h2_preface) {
            HttpVersion::V2
        } else {
            HttpVersion::from_observations(false, parse_request_head(buffer))
        }
    }

    /// Classifies `buffer` against the HTTP/2 client preface.
    pub fn detect(buffer: &[u8]) -> (version: HttpVersion)
        ensures
            version == classify(buffer@, h2_preface()),
    {
        let preface = h2_preface_bytes();
        HttpVersion::new(buffer, preface.as_slice())
    }

    /// Whether requests on such a connection are parsed and routed.
    pub fn is_filtered(&self) -> (filtered: bool)
        ensures
            filtered == (*self == HttpVersion::V1),
    {
        match self {
            HttpVersion::V1 => true,
            _ => false,
        }
    }
}

impl Default for HttpVersion {
    fn default() -> (version: HttpVersion)
        ensures
            version == HttpVersion::V1,
    {
        HttpVersion::V1
    }
}

} // verus!
