//! Header filters: regular expressions that are held against the header lines
//! of a request, each line of the form `name: value`.

use crate::pattern::{bytes_are_plain, plain_bytes};
use crate::protocol::HttpHeader;
use vstd::prelude::*;

verus! {

/// Whether `fancy_regex` accepts `pattern` as a regular expression.
pub uninterp spec fn regex_compiles(pattern: Seq<char>) -> bool;

/// What `fancy_regex` finds when `pattern` is searched for in `text`: whether
/// there is a match, or `None` where the pattern does not compile or the search
/// gives up.
pub uninterp spec fn regex_verdict(pattern: Seq<char>, text: Seq<char>) -> Option<bool>;

/// The pattern is of the plain kind: see [`crate::pattern`].
pub open spec fn is_plain_filter(pattern: Seq<char>) -> bool {
    plain_bytes(vstd::utf8::encode_utf8(pattern))
}

/// The pattern is taken as a filter: it is of the plain kind, and a regular
/// expression.
pub open spec fn accepted_filter(pattern: Seq<char>) -> bool {
    is_plain_filter(pattern) && regex_compiles(pattern)
}

/// Tells whether a pattern is of the plain kind.
pub fn pattern_is_plain(pattern: &str) -> (plain: bool)
    ensures
        plain == is_plain_filter(pattern@),
{
    bytes_are_plain(pattern.as_bytes())
}

/// Calls `fancy_regex::Regex::new` and reports whether it succeeded.
///
/// Only patterns of the plain kind are handed over. The parser of the engine
/// reads past the end of some patterns that open a conditional, and its
/// backtracking matcher is not fit for every back reference; a plain pattern
/// reaches neither, and its counts are too small for any size that the engine
/// computes to overflow.
///
/// Trusted: for a plain pattern the call returns, and the answer depends on
/// the pattern alone.
#[verifier::external_body]
pub(crate) fn pattern_compiles(pattern: &str) -> (compiles: bool)
    requires
        is_plain_filter(pattern@),
    ensures
        compiles == regex_compiles(pattern@),
{
    fancy_regex::Regex::new(pattern).is_ok()
}

/// Calls `fancy_regex::Regex::is_match` on the expression compiled from
/// `pattern` with the default options.
///
/// Only patterns of the plain kind are handed over, as to
/// [`pattern_compiles`]. The engine hands such a pattern whole to the
/// automaton of the `regex` crate.
///
/// Trusted: for a plain pattern both calls return, and the outcome, an error
/// included, depends on the pattern and the text alone.
#[verifier::external_body]
fn search(pattern: &str, text: &str) -> (verdict: Option<bool>)
    requires
        is_plain_filter(pattern@),
    ensures
        verdict == regex_verdict(pattern@, text@),
{
    match fancy_regex::Regex::new(pattern) {
        Ok(regex) => match regex.is_match(text) {
            Ok(found) => Some(found),
            Err(_) => None,
        },
        Err(_) => None,
    }
}

/// The characters that stand for the bytes, one for one.
pub open spec fn as_chars(bytes: Seq<u8>) -> Seq<char> {
    Seq::new(bytes.len(), |i: int| bytes[i] as char)
}

/// All bytes are ASCII.
pub open spec fn all_ascii(bytes: Seq<u8>) -> bool {
    forall|i: int| 0 <= i < bytes.len() ==> bytes[i] < 128
}

/// Calls `String::from_utf8`.
///
/// Trusted: bytes below 128 are valid UTF-8, and each of them is one character
/// of the string.
#[verifier::external_body]
pub(crate) fn string_from_ascii(bytes: Vec<u8>) -> (text: Option<String>)
    ensures
        text.is_some() || !all_ascii(bytes@),
        text matches Some(t) ==> all_ascii(bytes@) ==> t@ == as_chars(bytes@),
{
    match String::from_utf8(bytes) {
        Ok(text) => Some(text),
        Err(_) => None,
    }
}

/// A byte that may stand in a header line that is read as text: a visible ASCII
/// character, a space or a tab.
pub open spec fn is_text_byte(byte: u8) -> bool {
    byte == 9 || (32 <= byte && byte < 127)
}

/// All bytes may stand in a header line that is read as text.
pub open spec fn is_text(bytes: Seq<u8>) -> bool {
    forall|i: int| 0 <= i < bytes.len() ==> is_text_byte(#[trigger] bytes[i])
}

/// The separator between a header's name and its value.
pub open spec fn separator() -> Seq<u8> {
    seq![58u8, 32u8]
}

/// The bytes of the line `name: value`.
pub open spec fn line_bytes(header: (Seq<u8>, Seq<u8>)) -> Seq<u8> {
    header.0 + separator() + header.1
}

/// The line that filters are held against, `name: value`, for a header whose
/// name and value are text. Other headers have no line and match no filter.
pub open spec fn header_line_of(header: (Seq<u8>, Seq<u8>)) -> Option<Seq<char>> {
    if is_text(header.0) && is_text(header.1) {
        Some(as_chars(line_bytes(header)))
    } else {
        None
    }
}

/// Whether all of `bytes` may stand in a header line.
pub fn bytes_are_text(bytes: &Vec<u8>) -> (text: bool)
    ensures
        text == is_text(bytes@),
{
    let mut i: usize = 0;
    while i < bytes.len()
        invariant
            i <= bytes@.len(),
            forall|j: int| 0 <= j < i ==> is_text_byte(#[trigger] bytes@[j]),
        decreases bytes@.len() - i,
    {
        let byte = bytes[i];
        if !(byte == 9 || (32 <= byte && byte < 127)) {
            return false;
        }
        i += 1;
    }
    true
}

fn append_bytes(target: &mut Vec<u8>, source: &Vec<u8>)
    ensures
        final(target)@ == old(target)@ + source@,
{
    let ghost before = target@;
    let mut i: usize = 0;
    while i < source.len()
        invariant
            i <= source@.len(),
            target@ == before + source@.take(i as int),
        decreases source@.len() - i,
    {
        target.push(source[i]);
        assert(source@.take(i + 1) =~= source@.take(i as int).push(source@[i as int]));
        i += 1;
    }
    assert(source@.take(i as int) =~= source@);
}

/// Forms the line `name: value` of a header, if both parts are text.
pub fn header_line(header: &HttpHeader) -> (line: Option<String>)
    ensures
        match header_line_of(header@) {
            Some(chars) => line matches Some(text) && text@ == chars,
            None => line.is_none(),
        },
{
    if !bytes_are_text(&header.name) || !bytes_are_text(&header.value) {
        return None;
    }
    let mut bytes: Vec<u8> = Vec::new();
    append_bytes(&mut bytes, &header.name);
    bytes.push(58);
    bytes.push(32);
    append_bytes(&mut bytes, &header.value);
    proof {
        assert(bytes@ =~= line_bytes(header@));
        assert forall|i: int| 0 <= i < bytes@.len() implies bytes@[i] < 128 by {
            if i < header.name@.len() {
                assert(is_text_byte(header.name@[i]));
            } else if i >= header.name@.len() + 2 {
                assert(is_text_byte(header.value@[i - header.name@.len() - 2]));
            }
        }
    }
    string_from_ascii(bytes)
}

/// The lines of the headers that have one, in the order of the headers.
pub open spec fn header_lines_of(headers: Seq<(Seq<u8>, Seq<u8>)>) -> Seq<Seq<char>>
    decreases headers.len(),
{
    if headers.len() == 0 {
        Seq::empty()
    } else {
        let rest = header_lines_of(headers.drop_last());
        match header_line_of(headers.last()) {
            Some(line) => rest.push(line),
            None => rest,
        }
    }
}

/// The characters of each string, in order.
pub open spec fn lines_view(lines: Seq<String>) -> Seq<Seq<char>> {
    Seq::new(lines.len(), |i: int| lines[i]@)
}

/// Forms the lines of all headers that have one.
pub fn header_lines(headers: &Vec<HttpHeader>) -> (lines: Vec<String>)
    ensures
        lines_view(lines@) == header_lines_of(crate::protocol::headers_view(headers@)),
{
    let ghost all = crate::protocol::headers_view(headers@);
    let mut lines: Vec<String> = Vec::new();
    let mut i: usize = 0;
    assert(all.take(0) =~= Seq::empty());
    assert(lines_view(lines@) =~= Seq::empty());
    while i < headers.len()
        invariant
            i <= headers@.len(),
            all == crate::protocol::headers_view(headers@),
            lines_view(lines@) == header_lines_of(all.take(i as int)),
        decreases headers@.len() - i,
    {
        let ghost before = lines@;
        let line = header_line(&headers[i]);
        proof {
            assert(all.take(i + 1).drop_last() =~= all.take(i as int));
            assert(all.take(i + 1).last() == headers@[i as int]@);
        }
        match line {
            Some(text) => {
                lines.push(text);
                assert(lines_view(lines@) =~= lines_view(before).push(text@));
            },
            None => {},
        }
        i += 1;
    }
    assert(all.take(i as int) =~= all);
    lines
}

/// Whether a pattern accepts a line: the search succeeds and finds a match.
pub open spec fn filter_accepts(pattern: Seq<char>, line: Seq<char>) -> bool {
    regex_verdict(pattern, line) == Some(true)
}

/// Whether a pattern accepts one of the lines.
pub open spec fn accepts_any(pattern: Seq<char>, lines: Seq<Seq<char>>) -> bool {
    exists|i: int| 0 <= i < lines.len() && filter_accepts(pattern, #[trigger] lines[i])
}

/// Tells whether a pattern is taken as a filter.
pub fn pattern_is_accepted(pattern: &str) -> (accepted: bool)
    ensures
        accepted == accepted_filter(pattern@),
{
    pattern_is_plain(pattern) && pattern_compiles(pattern)
}

/// A regular expression that selects requests by their header lines. Its
/// pattern is always one that is taken as a filter.
#[derive(Debug, PartialEq, Eq)]
pub struct HeaderFilter {
    pattern: String,
}

impl View for HeaderFilter {
    type V = Seq<char>;

    closed spec fn view(&self) -> Seq<char> {
        self.pattern@
    }
}

impl Clone for HeaderFilter {
    fn clone(&self) -> (copy: HeaderFilter)
        ensures
            copy@ == self@,
    {
        proof {
            use_type_invariant(self);
        }
        HeaderFilter { pattern: self.pattern.clone() }
    }
}

impl HeaderFilter {
    #[verifier::type_invariant]
    spec fn holds_accepted_pattern(&self) -> bool {
        accepted_filter(self.pattern@)
    }

    /// Makes a filter of `pattern`, if it is taken as one: a regular
    /// expression of the plain kind.
    pub fn new(pattern: &str) -> (filter: Option<HeaderFilter>)
        ensures
            filter.is_some() == accepted_filter(pattern@),
            filter matches Some(f) ==> f@ == pattern@,
    {
        if pattern_is_accepted(pattern) {
            Some(HeaderFilter::from_checked(pattern))
        } else {
            None
        }
    }

    /// Makes a filter of a pattern that is known to be taken as one.
    pub(crate) fn from_checked(pattern: &str) -> (filter: HeaderFilter)
        requires
            accepted_filter(pattern@),
        ensures
            filter@ == pattern@,
    {
        HeaderFilter { pattern: pattern.to_owned() }
    }

    /// The pattern as it was given.
    pub fn as_str(&self) -> (pattern: &str)
        ensures
            pattern@ == self@,
    {
        self.pattern.as_str()
    }

    /// Whether the filter accepts `line`.
    pub fn is_match(&self, line: &str) -> (accepted: bool)
        ensures
            accepted == filter_accepts(self@, line@),
    {
        proof {
            use_type_invariant(self);
        }
        verdict_accepts(search(self.pattern.as_str(), line))
    }

    /// Whether the filter accepts one of `lines`.
    pub fn matches_any(&self, lines: &Vec<String>) -> (accepted: bool)
        ensures
            accepted == accepts_any(self@, lines_view(lines@)),
    {
        let mut i: usize = 0;
        while i < lines.len()
            invariant
                i <= lines@.len(),
                forall|j: int| 0 <= j < i ==> !filter_accepts(self@, #[trigger] lines_view(lines@)[j]),
            decreases lines@.len() - i,
        {
            if self.is_match(lines[i].as_str()) {
                assert(filter_accepts(self@, lines_view(lines@)[i as int]));
                return true;
            }
            i += 1;
        }
        false
    }
}

/// Reads the outcome of a search: only a match that was found counts.
pub fn verdict_accepts(verdict: Option<bool>) -> (accepted: bool)
    ensures
        accepted == (verdict == Some(true)),
{
    match verdict {
        Some(found) => found,
        None => false,
    }
}

} // verus!
