//! The messages exchanged between the agent and the layer about TCP traffic.
//!
//! Field order is the order on the wire. Types that own buffers have a view
//! that holds the same data as mathematical sequences; contracts speak of views.

use vstd::prelude::*;

verus! {

/// Identifies a connected layer.
pub type ClientId = u32;

/// Identifies an intercepted TCP connection.
pub type ConnectionId = u64;

/// Orders the HTTP requests of one connection.
pub type RequestId = u64;

/// A TCP port.
pub type Port = u16;

/// An IP address, held as the integer that its octets spell in network order.
#[derive(Clone, Copy, Debug, PartialEq, Eq, Structural)]
pub enum IpAddress {
    V4(u32),
    V6(u128),
}

/// Where a connection was headed, or where it came from.
#[derive(Clone, Copy, Debug, PartialEq, Eq, Structural)]
pub struct SocketAddress {
    pub ip: IpAddress,
    pub port: Port,
}

/// Reasons for which the agent turns a request down.
#[derive(Clone, Copy, Debug, PartialEq, Eq, Structural)]
pub enum ResponseError {
    /// Another client already steals this port.
    PortAlreadyStolen(Port),
    /// The header filter sent for this port is not taken: it is no regular
    /// expression, or not of the plain kind.
    BadHttpFilterRegex(Port),
}

/// What the agent answers to a request that can be turned down.
pub type RemoteResult<T> = Result<T, ResponseError>;

/// `Result::clone` of the standard library, which the derived `Clone` of the
/// message types calls. Nothing is claimed of the copy.
pub assume_specification<T, E>[ <Result<T, E> as Clone>::clone ](result: &Result<T, E>) -> Result<
    T,
    E,
>
    where E: Clone, T: Clone
;

/// Announces a freshly intercepted connection.
#[derive(Clone, Copy, Debug, PartialEq, Eq, Structural)]
pub struct NewTcpConnection {
    pub connection_id: ConnectionId,
    pub address: IpAddress,
    pub destination_port: Port,
    pub source_port: Port,
}

/// Bytes that belong to one connection.
#[derive(Clone, Debug, PartialEq, Eq)]
pub struct TcpData {
    pub connection_id: ConnectionId,
    pub bytes: Vec<u8>,
}

pub struct TcpDataView {
    pub connection_id: ConnectionId,
    pub bytes: Seq<u8>,
}

impl View for TcpData {
    type V = TcpDataView;

    open spec fn view(&self) -> TcpDataView {
        TcpDataView { connection_id: self.connection_id, bytes: self.bytes@ }
    }
}

/// Announces that a connection is over.
#[derive(Clone, Copy, Debug, PartialEq, Eq, Structural)]
pub struct TcpClose {
    pub connection_id: ConnectionId,
}

/// What a mirroring layer asks of the agent.
#[derive(Clone, Copy, Debug, PartialEq, Eq, Structural)]
pub enum LayerTcp {
    PortSubscribe(Port),
    ConnectionUnsubscribe(ConnectionId),
    PortUnsubscribe(Port),
}

/// Describes the stealing subscription to a port.
#[derive(Clone, Debug, PartialEq, Eq)]
pub enum PortSteal {
    /// Steal all traffic to this port.
    Steal(Port),
    /// Steal the HTTP requests on this port that have a header matching the
    /// regular expression.
    HttpFilterSteal(Port, String),
}

pub enum PortStealView {
    Steal(Port),
    HttpFilterSteal(Port, Seq<char>),
}

impl View for PortSteal {
    type V = PortStealView;

    open spec fn view(&self) -> PortStealView {
        match self {
            PortSteal::Steal(port) => PortStealView::Steal(*port),
            PortSteal::HttpFilterSteal(port, filter) => PortStealView::HttpFilterSteal(
                *port,
                filter@,
            ),
        }
    }
}

impl PortStealView {
    /// The port that the subscription is about.
    pub open spec fn port(self) -> Port {
        match self {
            PortStealView::Steal(port) => port,
            PortStealView::HttpFilterSteal(port, _) => port,
        }
    }
}

impl PortSteal {
    /// The port that the subscription is about.
    pub fn port(&self) -> (port: Port)
        ensures
            port == self@.port(),
    {
        match self {
            PortSteal::Steal(port) => *port,
            PortSteal::HttpFilterSteal(port, _) => *port,
        }
    }
}

/// The protocol version named in a request or status line.
#[derive(Clone, Copy, Debug, PartialEq, Eq, Structural)]
pub enum HttpProtocol {
    Http09,
    Http10,
    Http11,
    Http2,
    Http3,
}

/// One header line: name and value as they travel, byte for byte.
#[derive(Clone, Debug, PartialEq, Eq)]
pub struct HttpHeader {
    pub name: Vec<u8>,
    pub value: Vec<u8>,
}

impl View for HttpHeader {
    type V = (Seq<u8>, Seq<u8>);

    open spec fn view(&self) -> (Seq<u8>, Seq<u8>) {
        (self.name@, self.value@)
    }
}

/// The views of a list of headers, in order.
pub open spec fn headers_view(headers: Seq<HttpHeader>) -> Seq<(Seq<u8>, Seq<u8>)> {
    Seq::new(headers.len(), |i: int| headers[i]@)
}

/// An HTTP request with its body collected.
#[derive(Clone, Debug, PartialEq, Eq)]
pub struct InternalHttpRequest {
    pub method: String,
    pub uri: String,
    pub headers: Vec<HttpHeader>,
    pub version: HttpProtocol,
    pub body: Vec<u8>,
}

pub struct InternalHttpRequestView {
    pub method: Seq<char>,
    pub uri: Seq<char>,
    pub headers: Seq<(Seq<u8>, Seq<u8>)>,
    pub version: HttpProtocol,
    pub body: Seq<u8>,
}

impl View for InternalHttpRequest {
    type V = InternalHttpRequestView;

    open spec fn view(&self) -> InternalHttpRequestView {
        InternalHttpRequestView {
            method: self.method@,
            uri: self.uri@,
            headers: headers_view(self.headers@),
            version: self.version,
            body: self.body@,
        }
    }
}

/// A stolen HTTP request on its way to the layer.
#[derive(Clone, Debug, PartialEq, Eq)]
pub struct HttpRequest {
    pub request: InternalHttpRequest,
    pub connection_id: ConnectionId,
    pub request_id: RequestId,
    /// Lets the layer open its side of the connection with the first request.
    pub port: Port,
}

pub struct HttpRequestView {
    pub request: InternalHttpRequestView,
    pub connection_id: ConnectionId,
    pub request_id: RequestId,
    pub port: Port,
}

impl View for HttpRequest {
    type V = HttpRequestView;

    open spec fn view(&self) -> HttpRequestView {
        HttpRequestView {
            request: self.request@,
            connection_id: self.connection_id,
            request_id: self.request_id,
            port: self.port,
        }
    }
}

/// An HTTP response with its body collected.
#[derive(Clone, Debug, PartialEq, Eq)]
pub struct InternalHttpResponse {
    pub status: u16,
    pub version: HttpProtocol,
    pub headers: Vec<HttpHeader>,
    pub body: Vec<u8>,
}

pub struct InternalHttpResponseView {
    pub status: u16,
    pub version: HttpProtocol,
    pub headers: Seq<(Seq<u8>, Seq<u8>)>,
    pub body: Seq<u8>,
}

impl View for InternalHttpResponse {
    type V = InternalHttpResponseView;

    open spec fn view(&self) -> InternalHttpResponseView {
        InternalHttpResponseView {
            status: self.status,
            version: self.version,
            headers: headers_view(self.headers@),
            body: self.body@,
        }
    }
}

/// The layer's answer to a stolen HTTP request.
#[derive(Clone, Debug, PartialEq, Eq)]
pub struct HttpResponse {
    /// Makes sure the response is sent in its turn, after the responses to all
    /// earlier requests of the connection.
    pub request_id: RequestId,
    pub connection_id: ConnectionId,
    pub port: Port,
    pub response: InternalHttpResponse,
}

pub struct HttpResponseView {
    pub request_id: RequestId,
    pub connection_id: ConnectionId,
    pub port: Port,
    pub response: InternalHttpResponseView,
}

impl View for HttpResponse {
    type V = HttpResponseView;

    open spec fn view(&self) -> HttpResponseView {
        HttpResponseView {
            request_id: self.request_id,
            connection_id: self.connection_id,
            port: self.port,
            response: self.response@,
        }
    }
}

/// What the agent tells a layer about its TCP traffic.
#[derive(Clone, Debug, PartialEq, Eq)]
pub enum DaemonTcp {
    NewConnection(NewTcpConnection),
    Data(TcpData),
    Close(TcpClose),
    /// Tells the layer how its subscription went.
    SubscribeResult(RemoteResult<Port>),
    HttpRequest(HttpRequest),
}

pub enum DaemonTcpView {
    NewConnection(NewTcpConnection),
    Data(TcpDataView),
    Close(TcpClose),
    SubscribeResult(RemoteResult<Port>),
    HttpRequest(HttpRequestView),
}

impl View for DaemonTcp {
    type V = DaemonTcpView;

    open spec fn view(&self) -> DaemonTcpView {
        match self {
            DaemonTcp::NewConnection(connection) => DaemonTcpView::NewConnection(*connection),
            DaemonTcp::Data(data) => DaemonTcpView::Data(data@),
            DaemonTcp::Close(close) => DaemonTcpView::Close(*close),
            DaemonTcp::SubscribeResult(result) => DaemonTcpView::SubscribeResult(*result),
            DaemonTcp::HttpRequest(request) => DaemonTcpView::HttpRequest(request@),
        }
    }
}

/// What a stealing layer asks of the agent.
#[derive(Clone, Debug, PartialEq, Eq)]
pub enum LayerTcpSteal {
    PortSubscribe(PortSteal),
    ConnectionUnsubscribe(ConnectionId),
    PortUnsubscribe(Port),
    Data(TcpData),
    HttpResponse(HttpResponse),
}

pub enum LayerTcpStealView {
    PortSubscribe(PortStealView),
    ConnectionUnsubscribe(ConnectionId),
    PortUnsubscribe(Port),
    Data(TcpDataView),
    HttpResponse(HttpResponseView),
}

impl View for LayerTcpSteal {
    type V = LayerTcpStealView;

    open spec fn view(&self) -> LayerTcpStealView {
        match self {
            LayerTcpSteal::PortSubscribe(steal) => LayerTcpStealView::PortSubscribe(steal@),
            LayerTcpSteal::ConnectionUnsubscribe(id) => LayerTcpStealView::ConnectionUnsubscribe(
                *id,
            ),
            LayerTcpSteal::PortUnsubscribe(port) => LayerTcpStealView::PortUnsubscribe(*port),
            LayerTcpSteal::Data(data) => LayerTcpStealView::Data(data@),
            LayerTcpSteal::HttpResponse(response) => LayerTcpStealView::HttpResponse(response@),
        }
    }
}

/// What a layer sends to the agent about incoming traffic.
#[derive(Clone, Debug, PartialEq, Eq)]
pub enum ClientMessage {
    Tcp(LayerTcp),
    TcpSteal(LayerTcpSteal),
}

/// A pair of regular expressions, for the name and the value of a header.
#[derive(Clone, Debug, PartialEq, Eq)]
pub struct RegexFilter(pub String, pub String);

} // verus!
