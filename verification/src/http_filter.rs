//! What happens to one connection on a filtered port: how it is classified, and
//! where each of its HTTP requests goes.

use crate::http_traffic::{winner_of, HttpFilterManager};
use crate::probe::{classify, h2_preface, HttpVersion, ParseError};
use crate::protocol::{
    ClientId, ConnectionId, HttpHeader, InternalHttpRequest, InternalHttpResponse, Port,
    RequestId, SocketAddress,
};
use vstd::prelude::*;

verus! {

/// Errors specific to the HTTP traffic feature.
#[derive(Clone, Copy, Debug, PartialEq, Eq, Structural)]
pub enum HttpTrafficError {
    /// Nothing could be peeked from the connection.
    Empty,
    /// No such client is registered.
    ClientNotFound(ClientId),
    /// Fewer bytes than the shortest request.
    TooSmall,
    /// The buffer does not hold a valid HTTP request.
    NotHttp,
    /// Reading or writing a socket failed.
    IO,
    /// The request parser turned the bytes down.
    Parse(ParseError),
    /// The HTTP library failed.
    Hyper,
    /// A matched request could not be handed over.
    MatchedSender,
    /// The connection has used up its request ids.
    RequestIdsExhausted,
    /// The body of a request is longer than [`MAX_BODY_SIZE`].
    BodyTooLarge,
}

/// The longest request body that is routed, in bytes.
pub const MAX_BODY_SIZE: usize = 67108864;

/// What comes of a request on a handler: where it goes, or why it is turned
/// down. The handler's request counter is taken as it stands once the request
/// was counted.
pub open spec fn outcome_of(
    handler: HyperHandler,
    winner: Option<ClientId>,
    request: InternalHttpRequest,
) -> Result<HandlerDecision, HttpTrafficError> {
    if request.body@.len() > MAX_BODY_SIZE {
        Err(HttpTrafficError::BodyTooLarge)
    } else {
        Ok(route(handler, winner, request))
    }
}

/// A request that a client's filter accepted, on its way to that client.
#[derive(Debug, PartialEq, Eq)]
pub struct MatchedHttpRequest {
    pub port: Port,
    pub connection_id: ConnectionId,
    pub client_id: ClientId,
    pub request_id: RequestId,
    pub request: InternalHttpRequest,
}

/// Where a request goes.
#[derive(Debug, PartialEq, Eq)]
pub enum HandlerDecision {
    /// To the client whose filter accepted it. The response comes back from
    /// that client.
    Matched(MatchedHttpRequest),
    /// To where the connection was headed, as it is. The response comes back
    /// from there.
    Unmatched { destination: SocketAddress, request: InternalHttpRequest },
}

/// Serves the requests of one HTTP/1 connection.
#[derive(Debug, PartialEq, Eq)]
pub struct HyperHandler {
    pub connection_id: ConnectionId,
    pub port: Port,
    pub original_destination: SocketAddress,
    pub request_id: RequestId,
}

impl HyperHandler {
    /// Decides where `request` goes.
    ///
    /// The request counter is stepped before anything else, so the first
    /// request of a connection has the id 1. A request whose body is too long
    /// is turned down. Any other request is handed on untouched, to the client
    /// chosen by [`winner_of`] or else to the original destination. Once the
    /// counter cannot be stepped any more, requests are turned down and
    /// nothing changes.
    pub fn call(&mut self, filters: &HttpFilterManager, request: InternalHttpRequest) -> (decision:
        Result<HandlerDecision, HttpTrafficError>)
        ensures
            final(self).connection_id == old(self).connection_id,
            final(self).port == old(self).port,
            final(self).original_destination == old(self).original_destination,
            old(self).request_id == u64::MAX ==> *final(self) == *old(self) && decision == Err::<
                HandlerDecision,
                HttpTrafficError,
            >(HttpTrafficError::RequestIdsExhausted),
            old(self).request_id < u64::MAX ==> final(self).request_id == old(self).request_id + 1
                && decision == outcome_of(
                *final(self),
                winner_of(filters@.filters, request@.headers),
                request,
            ),
    {
        if self.request_id == u64::MAX {
            return Err(HttpTrafficError::RequestIdsExhausted);
        }
        self.request_id = self.request_id + 1;
        if request.body.len() > MAX_BODY_SIZE {
            return Err(HttpTrafficError::BodyTooLarge);
        }
        let winner = filters.matching_client(&request.headers);
        Ok(self.dispatch(winner, request))
    }

    /// Routes `request` to `winner`, or to the original destination if there
    /// is none.
    pub fn dispatch(&self, winner: Option<ClientId>, request: InternalHttpRequest) -> (decision:
        HandlerDecision)
        ensures
            decision == route(*self, winner, request),
    {
        match winner {
            Some(client_id) => HandlerDecision::Matched(
                MatchedHttpRequest {
                    port: self.port,
                    connection_id: self.connection_id,
                    client_id,
                    request_id: self.request_id,
                    request,
                },
            ),
            None => HandlerDecision::Unmatched { destination: self.original_destination, request },
        }
    }
}

/// The decision for a request, given the client that won it, if any.
pub open spec fn route(
    handler: HyperHandler,
    winner: Option<ClientId>,
    request: InternalHttpRequest,
) -> HandlerDecision {
    match winner {
        Some(client_id) => HandlerDecision::Matched(
            MatchedHttpRequest {
                port: handler.port,
                connection_id: handler.connection_id,
                client_id,
                request_id: handler.request_id,
                request,
            },
        ),
        None => HandlerDecision::Unmatched { destination: handler.original_destination, request },
    }
}

/// The lower-case form of an ASCII letter; any other byte as it is.
pub open spec fn ascii_lower(byte: u8) -> u8 {
    if 65 <= byte && byte <= 90 {
        (byte + 32) as u8
    } else {
        byte
    }
}

/// The two names are the same but for the case of ASCII letters.
pub open spec fn same_name(a: Seq<u8>, b: Seq<u8>) -> bool {
    a.len() == b.len() && forall|i: int| 0 <= i < a.len() ==> ascii_lower(a[i]) == ascii_lower(b[i])
}

/// `content-length`
pub open spec fn content_length() -> Seq<u8> {
    seq![99u8, 111u8, 110u8, 116u8, 101u8, 110u8, 116u8, 45u8, 108u8, 101u8, 110u8, 103u8, 116u8, 104u8]
}

/// `transfer-encoding`
pub open spec fn transfer_encoding() -> Seq<u8> {
    seq![
        116u8, 114u8, 97u8, 110u8, 115u8, 102u8, 101u8, 114u8, 45u8, 101u8, 110u8, 99u8, 111u8, 100u8,
        105u8, 110u8, 103u8,
    ]
}

/// A header that says how the body is framed. Such a header is stale once the
/// body was collected, and is dropped from a response.
pub open spec fn is_framing_name(name: Seq<u8>) -> bool {
    same_name(name, content_length()) || same_name(name, transfer_encoding())
}

/// Picks the headers that stay in a response.
pub open spec fn stays() -> spec_fn(HttpHeader) -> bool {
    |header: HttpHeader| !is_framing_name(header.name@)
}

fn names_agree(a: &Vec<u8>, b: &[u8]) -> (agree: bool)
    ensures
        agree == same_name(a@, b@),
{
    if a.len() != b.len() {
        return false;
    }
    let mut i: usize = 0;
    while i < a.len()
        invariant
            a@.len() == b@.len(),
            i <= a@.len(),
            forall|j: int| 0 <= j < i ==> ascii_lower(a@[j]) == ascii_lower(b@[j]),
        decreases a@.len() - i,
    {
        let x = a[i];
        let y = b[i];
        let lx: u8 = if 65 <= x && x <= 90 { x + 32 } else { x };
        let ly: u8 = if 65 <= y && y <= 90 { y + 32 } else { y };
        if lx != ly {
            return false;
        }
        i += 1;
    }
    true
}

/// Whether a header of this name says how the body is framed.
pub fn is_framing_header(name: &Vec<u8>) -> (framing: bool)
    ensures
        framing == is_framing_name(name@),
{
    let content_length: [u8; 14] = [99, 111, 110, 116, 101, 110, 116, 45, 108, 101, 110, 103, 116, 104];
    let transfer_encoding: [u8; 17] = [
        116, 114, 97, 110, 115, 102, 101, 114, 45, 101, 110, 99, 111, 100, 105, 110, 103,
    ];
    proof {
        assert(content_length@ =~= self::content_length());
        assert(transfer_encoding@ =~= self::transfer_encoding());
    }
    names_agree(name, content_length.as_slice()) || names_agree(name, transfer_encoding.as_slice())
}

/// Drops `Content-Length` and `Transfer-Encoding` from a response whose body
/// was collected. Status, version, body and the other headers stay as they
/// are, the headers in their order.
pub fn strip_framing_headers(response: InternalHttpResponse) -> (stripped: InternalHttpResponse)
    ensures
        stripped.status == response.status,
        stripped.version == response.version,
        stripped.body == response.body,
        stripped.headers@ == response.headers@.filter(stays()),
{
    let InternalHttpResponse { status, version, headers, body } = response;
    let ghost all = headers@;
    let ghost pick = stays();
    let mut headers = headers;
    let mut i: usize = 0;
    let ghost mut seen: int = 0;
    assert(all.take(0) =~= Seq::<HttpHeader>::empty());
    assert(all.skip(0) =~= all);
    assert(headers@.take(0) =~= Seq::<HttpHeader>::empty());
    while i < headers.len()
        invariant
            pick == stays(),
            i <= headers@.len(),
            0 <= seen <= all.len(),
            headers@.take(i as int) == all.take(seen).filter(pick),
            headers@.skip(i as int) == all.skip(seen),
        decreases headers@.len() - i,
    {
        let ghost before = headers@;
        proof {
            assert(before.skip(i as int)[0] == all.skip(seen)[0]);
            assert(before.skip(i as int).len() == all.skip(seen).len());
            assert(all.take(seen + 1) =~= all.take(seen).push(all[seen]));
            all.take(seen).lemma_filter_push(all[seen], pick);
        }
        if is_framing_header(&headers[i].name) {
            let _ = headers.remove(i);
            proof {
                assert(headers@.take(i as int) =~= before.take(i as int));
                assert(headers@.skip(i as int) =~= before.skip(i as int).skip(1));
                assert(all.skip(seen).skip(1) =~= all.skip(seen + 1));
                seen = seen + 1;
            }
        } else {
            proof {
                assert(headers@.take(i + 1) =~= before.take(i as int).push(before[i as int]));
                assert(headers@.skip(i + 1) =~= before.skip(i as int).skip(1));
                assert(all.skip(seen).skip(1) =~= all.skip(seen + 1));
                seen = seen + 1;
            }
            i += 1;
        }
    }
    proof {
        assert(headers@.take(i as int) =~= headers@);
        assert(all.skip(seen).len() == 0);
        assert(all.take(seen) =~= all);
    }
    InternalHttpResponse { status, version, headers, body }
}

/// An intercepted connection before it is known what it speaks.
#[derive(Clone, Copy, Debug, PartialEq, Eq, Structural)]
pub struct StolenConnection {
    /// Where the connection was headed before it was redirected.
    pub original_address: SocketAddress,
    pub connection_id: ConnectionId,
}

impl StolenConnection {
    pub fn new(original_address: SocketAddress, connection_id: ConnectionId) -> (connection:
        StolenConnection)
        ensures
            connection.original_address == original_address,
            connection.connection_id == connection_id,
    {
        StolenConnection { original_address, connection_id }
    }
}

/// What to run for a connection on a filtered port.
#[derive(Debug, PartialEq, Eq)]
pub enum HttpFilter {
    /// Serve the connection as HTTP/1 with this handler.
    Serve(HyperHandler),
    /// Copy bytes both ways between the connection and this address until
    /// either side closes.
    PassThrough(StolenConnection),
}

/// Classifies a connection and sets up its handling.
#[derive(Clone, Copy, Debug, PartialEq, Eq, Structural)]
pub struct HttpFilterBuilder {
    pub http_version: HttpVersion,
    pub stolen_connection: StolenConnection,
}

impl HttpFilterBuilder {
    /// Classifies a connection by the bytes peeked from it, which stay unread.
    ///
    /// A connection from which nothing could be peeked is turned down. This is
    /// a best-effort classification, not a guarantee that the stream is HTTP.
    pub fn new(stolen_connection: StolenConnection, peeked: &[u8]) -> (builder: Result<
        HttpFilterBuilder,
        HttpTrafficError,
    >)
        ensures
            builder.is_err() <==> peeked@.len() == 0,
            builder.is_err() ==> builder == Err::<HttpFilterBuilder, HttpTrafficError>(
                HttpTrafficError::Empty,
            ),
            builder matches Ok(b) ==> b.stolen_connection == stolen_connection && b.http_version
                == classify(peeked@, h2_preface()),
    {
        if peeked.len() == 0 {
            Err(HttpTrafficError::Empty)
        } else {
            Ok(HttpFilterBuilder { http_version: HttpVersion::detect(peeked), stolen_connection })
        }
    }

    /// Sets up the handling: HTTP/1 is served request by request, starting
    /// with a request counter of zero; everything else is passed through.
    pub fn start(self) -> (filter: HttpFilter)
        ensures
            filter == filter_for(self),
    {
        match self.http_version {
            HttpVersion::V1 => HttpFilter::Serve(
                HyperHandler {
                    connection_id: self.stolen_connection.connection_id,
                    port: self.stolen_connection.original_address.port,
                    original_destination: self.stolen_connection.original_address,
                    request_id: 0,
                },
            ),
            HttpVersion::V2 => HttpFilter::PassThrough(self.stolen_connection),
            HttpVersion::NotHttp => HttpFilter::PassThrough(self.stolen_connection),
        }
    }
}

/// The handling that a classified connection gets.
pub open spec fn filter_for(builder: HttpFilterBuilder) -> HttpFilter {
    if builder.http_version == HttpVersion::V1 {
        HttpFilter::Serve(
            HyperHandler {
                connection_id: builder.stolen_connection.connection_id,
                port: builder.stolen_connection.original_address.port,
                original_destination: builder.stolen_connection.original_address,
                request_id: 0,
            },
        )
    } else {
        HttpFilter::PassThrough(builder.stolen_connection)
    }
}

} // verus!
