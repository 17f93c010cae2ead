//! The layer's side of stealing: what it does with the agent's messages and
//! with what the local application writes back.
//!
//! The handler keeps book of the listeners of the local application, of the
//! connections that were opened to them on behalf of remote peers, and of the
//! HTTP connections that relay stolen requests. The code that embeds it dials,
//! reads and writes as the returned [`LayerAction`]s say.

use crate::protocol::{
    ClientMessage, ConnectionId, DaemonTcp, HttpRequest, HttpResponse, LayerTcpSteal,
    NewTcpConnection, Port, PortSteal, ResponseError, TcpClose, TcpData,
};
use crate::stealer_model::Incoming;
use vstd::prelude::*;

verus! {

/// A socket on which the local application listens.
#[derive(Clone, Copy, Debug, PartialEq, Eq, Structural)]
pub struct Listen {
    /// The port that the layer really bound for the application.
    pub mirror_port: Port,
    /// The port that the application asked for, which is stolen remotely.
    pub requested_port: Port,
    /// Whether the socket is an IPv6 one.
    pub ipv6: bool,
}

/// Why the layer turns a message down.
#[derive(Clone, Copy, Debug, PartialEq, Eq, Structural)]
pub enum LayerError {
    /// No connection of this id is open.
    NoConnectionId(ConnectionId),
    /// The application listens on this port already.
    ListenAlreadyExists,
    /// The application does not listen on this port.
    PortNotFound(Port),
    /// The agent turned a subscription down.
    SubscribeFailed(ResponseError),
}

/// What the embedding code is to do.
#[derive(Debug, PartialEq, Eq)]
pub enum LayerAction {
    /// Send the message to the agent.
    Emit(ClientMessage),
    /// Connect to the local application on `port` of the loopback address, and
    /// keep both halves of the stream under the connection's id.
    Dial { connection_id: ConnectionId, port: Port, ipv6: bool },
    /// Write the bytes to the local end of the connection.
    Write(ConnectionId, Vec<u8>),
    /// Drop both halves of the connection's stream.
    DropConnection(ConnectionId),
    /// Connect to the local application on `port`, shake hands as an HTTP/1
    /// client and keep the sender under the connection's id.
    ConnectHttp { connection_id: ConnectionId, port: Port },
    /// Send the request through the sender of its connection and report the
    /// response with [`TcpStealHandler::handle_http_response`].
    ForwardRequest(HttpRequest),
}

/// What the handler holds.
pub struct LayerView {
    /// The filter that goes with every subscription, if one is configured.
    pub filter: Option<Seq<char>>,
    pub ports: Seq<Listen>,
    /// The connections with an open stream to the local application.
    pub connections: Seq<ConnectionId>,
    /// The connections with an HTTP sender.
    pub senders: Seq<ConnectionId>,
}

impl LayerView {
    /// The listener at position `i` was asked to listen on `port`.
    pub open spec fn listens_at(self, port: Port, i: int) -> bool {
        0 <= i < self.ports.len() && self.ports[i].requested_port == port
    }

    /// The application listens on `port`.
    pub open spec fn listens_on(self, port: Port) -> bool {
        exists|i: int| self.listens_at(port, i)
    }

    /// The listener of `port`.
    pub open spec fn listener(self, port: Port) -> Listen {
        self.ports[choose|i: int| self.listens_at(port, i)]
    }

    /// No port has two listeners, and no connection or sender is listed twice.
    pub open spec fn wf(self) -> bool {
        &&& forall|i: int, j: int|
            0 <= i < self.ports.len() && 0 <= j < self.ports.len() && i != j ==> (
            #[trigger] self.ports[i]).requested_port != (#[trigger] self.ports[j]).requested_port
        &&& self.connections.no_duplicates()
        &&& self.senders.no_duplicates()
    }

    /// The handler after the agent announced a connection.
    pub open spec fn new_connection(self, connection: NewTcpConnection) -> LayerView {
        if self.listens_on(connection.destination_port) && !self.connections.contains(
            connection.connection_id,
        ) {
            LayerView { connections: self.connections.push(connection.connection_id), ..self }
        } else {
            self
        }
    }

    /// What is to be done with a connection that the agent announced: the
    /// listener of its port is dialled.
    pub open spec fn new_connection_actions(self, connection: NewTcpConnection) -> Result<
        Seq<LayerAction>,
        LayerError,
    > {
        if self.listens_on(connection.destination_port) {
            Ok(
                seq![
                    LayerAction::Dial {
                        connection_id: connection.connection_id,
                        port: self.listener(connection.destination_port).mirror_port,
                        ipv6: self.listener(connection.destination_port).ipv6,
                    },
                ],
            )
        } else {
            Err(LayerError::PortNotFound(connection.destination_port))
        }
    }

    /// What is to be done with bytes of a remote peer.
    pub open spec fn new_data_actions(self, data: TcpData) -> Result<Seq<LayerAction>, LayerError> {
        if self.connections.contains(data.connection_id) {
            Ok(seq![LayerAction::Write(data.connection_id, data.bytes)])
        } else {
            Err(LayerError::NoConnectionId(data.connection_id))
        }
    }

    /// The handler after a connection ended.
    pub open spec fn close(self, connection_id: ConnectionId) -> LayerView {
        LayerView {
            connections: self.connections.filter(other_connection(connection_id)),
            senders: self.senders.filter(other_connection(connection_id)),
            ..self
        }
    }

    /// The handler after a stolen request arrived.
    pub open spec fn http_request(self, request: HttpRequest) -> LayerView {
        if self.senders.contains(request.connection_id) {
            self
        } else {
            LayerView { senders: self.senders.push(request.connection_id), ..self }
        }
    }

    /// What is to be done with a stolen request: it is forwarded, after the
    /// HTTP connection was set up if it is the first of its connection.
    pub open spec fn http_request_actions(self, request: HttpRequest) -> Seq<LayerAction> {
        if self.senders.contains(request.connection_id) {
            seq![LayerAction::ForwardRequest(request)]
        } else {
            seq![
                LayerAction::ConnectHttp { connection_id: request.connection_id, port: request.port },
                LayerAction::ForwardRequest(request),
            ]
        }
    }

    /// The handler after a message of the agent.
    pub open spec fn daemon_message(self, message: DaemonTcp) -> LayerView {
        match message {
            DaemonTcp::NewConnection(connection) => self.new_connection(connection),
            DaemonTcp::Data(_) => self,
            DaemonTcp::Close(close) => self.close(close.connection_id),
            DaemonTcp::SubscribeResult(_) => self,
            DaemonTcp::HttpRequest(request) => self.http_request(request),
        }
    }

    /// What is to be done with a message of the agent, or why it is turned
    /// down.
    pub open spec fn daemon_message_actions(self, message: DaemonTcp) -> Result<
        Seq<LayerAction>,
        LayerError,
    > {
        match message {
            DaemonTcp::NewConnection(connection) => self.new_connection_actions(connection),
            DaemonTcp::Data(data) => self.new_data_actions(data),
            DaemonTcp::Close(close) => Ok(seq![LayerAction::DropConnection(close.connection_id)]),
            DaemonTcp::SubscribeResult(result) => match result {
                Ok(_) => Ok(Seq::empty()),
                Err(error) => Err(LayerError::SubscribeFailed(error)),
            },
            DaemonTcp::HttpRequest(request) => Ok(self.http_request_actions(request)),
        }
    }

    /// The subscription that is sent for a listener.
    pub open spec fn subscription(self, port: Port) -> crate::protocol::PortStealView {
        match self.filter {
            Some(pattern) => crate::protocol::PortStealView::HttpFilterSteal(port, pattern),
            None => crate::protocol::PortStealView::Steal(port),
        }
    }
}

/// Picks the ids other than `connection_id`.
pub open spec fn other_connection(connection_id: ConnectionId) -> spec_fn(ConnectionId) -> bool {
    |other: ConnectionId| other != connection_id
}

/// Relays stolen traffic between the agent and the local application.
#[derive(Debug)]
pub struct TcpStealHandler {
    filter: Option<String>,
    ports: Vec<Listen>,
    connections: Vec<ConnectionId>,
    senders: Vec<ConnectionId>,
}

impl View for TcpStealHandler {
    type V = LayerView;

    closed spec fn view(&self) -> LayerView {
        LayerView {
            filter: match self.filter {
                Some(pattern) => Some(pattern@),
                None => None,
            },
            ports: self.ports@,
            connections: self.connections@,
            senders: self.senders@,
        }
    }
}

fn position_of(ids: &Vec<ConnectionId>, connection_id: ConnectionId) -> (position: Option<usize>)
    ensures
        match position {
            Some(i) => i < ids@.len() && ids@[i as int] == connection_id,
            None => !ids@.contains(connection_id),
        },
{
    let mut i: usize = 0;
    while i < ids.len()
        invariant
            i <= ids@.len(),
            forall|j: int| 0 <= j < i ==> ids@[j] != connection_id,
        decreases ids@.len() - i,
    {
        if ids[i] == connection_id {
            return Some(i);
        }
        i += 1;
    }
    None
}

fn without_id(ids: &Vec<ConnectionId>, connection_id: ConnectionId) -> (kept: Vec<ConnectionId>)
    requires
        ids@.no_duplicates(),
    ensures
        kept@ == ids@.filter(other_connection(connection_id)),
        kept@.no_duplicates(),
        !kept@.contains(connection_id),
{
    let ghost pick = other_connection(connection_id);
    let mut kept: Vec<ConnectionId> = Vec::new();
    let mut i: usize = 0;
    assert(ids@.take(0) =~= Seq::<ConnectionId>::empty());
    while i < ids.len()
        invariant
            i <= ids@.len(),
            pick == other_connection(connection_id),
            kept@ == ids@.take(i as int).filter(pick),
        decreases ids@.len() - i,
    {
        let id = ids[i];
        proof {
            ids@.take(i as int).lemma_filter_push(id, pick);
            assert(ids@.take(i + 1) =~= ids@.take(i as int).push(id));
        }
        if id != connection_id {
            kept.push(id);
        }
        i += 1;
    }
    proof {
        assert(ids@.take(i as int) =~= ids@);
        crate::seq_facts::lemma_filter_no_duplicates(ids@, pick);
        crate::seq_facts::lemma_filter_membership(ids@, pick, connection_id);
    }
    kept
}

impl TcpStealHandler {
    /// The invariant that every operation keeps.
    pub open spec fn wf(&self) -> bool {
        self@.wf()
    }

    /// A handler without listeners and connections. With a filter, the layer
    /// asks only for the HTTP requests that the filter accepts.
    pub fn new(filter: Option<String>) -> (handler: TcpStealHandler)
        ensures
            handler.wf(),
            handler@.ports == Seq::<Listen>::empty(),
            handler@.connections == Seq::<ConnectionId>::empty(),
            handler@.senders == Seq::<ConnectionId>::empty(),
            match filter {
                Some(pattern) => handler@.filter == Some(pattern@),
                None => handler@.filter.is_none(),
            },
    {
        TcpStealHandler { filter, ports: Vec::new(), connections: Vec::new(), senders: Vec::new() }
    }

    fn listener_position(&self, port: Port) -> (position: Option<usize>)
        ensures
            match position {
                Some(i) => self@.listens_at(port, i as int),
                None => !self@.listens_on(port),
            },
    {
        let mut i: usize = 0;
        while i < self.ports.len()
            invariant
                i <= self.ports@.len(),
                forall|j: int| 0 <= j < i ==> !self@.listens_at(port, j),
            decreases self.ports@.len() - i,
        {
            if self.ports[i].requested_port == port {
                return Some(i);
            }
            i += 1;
        }
        None
    }

    /// The listeners of the local application.
    pub fn ports(&self) -> (ports: &Vec<Listen>)
        ensures
            ports@ == self@.ports,
    {
        &self.ports
    }

    /// Handles a listener that the application opened: the agent is asked for
    /// the traffic of the port. A port can be listened on once.
    pub fn handle_listen(&mut self, listen: Listen) -> (outcome: Result<Vec<LayerAction>, LayerError>)
        requires
            old(self).wf(),
        ensures
            final(self).wf(),
            outcome.is_err() <==> old(self)@.listens_on(listen.requested_port),
            outcome.is_err() ==> outcome == Err::<Vec<LayerAction>, LayerError>(
                LayerError::ListenAlreadyExists,
            ) && final(self)@ == old(self)@,
            outcome matches Ok(actions) ==> final(self)@ == (LayerView {
                ports: old(self)@.ports.push(listen),
                ..old(self)@
            }) && actions@.len() == 1 && (actions@[0] matches LayerAction::Emit(
                ClientMessage::TcpSteal(LayerTcpSteal::PortSubscribe(steal)),
            ) && steal@ == old(self)@.subscription(listen.requested_port)),
    {
        if self.listener_position(listen.requested_port).is_some() {
            return Err(LayerError::ListenAlreadyExists);
        }
        let ghost before = self@;
        let port = listen.requested_port;
        self.ports.push(listen);
        proof {
            assert(self@.ports =~= before.ports.push(listen));
            assert forall|i: int, j: int|
                0 <= i < self@.ports.len() && 0 <= j < self@.ports.len() && i != j implies (
            #[trigger] self@.ports[i]).requested_port != (#[trigger] self@.ports[j]).requested_port by {
                if i < before.ports.len() && j < before.ports.len() {
                    assert(before.ports[i].requested_port != before.ports[j].requested_port);
                } else if i < before.ports.len() {
                    assert(!before.listens_at(port, i));
                } else {
                    assert(!before.listens_at(port, j));
                }
            }
        }
        let steal = match &self.filter {
            Some(pattern) => PortSteal::HttpFilterSteal(port, pattern.clone()),
            None => PortSteal::Steal(port),
        };
        let mut actions: Vec<LayerAction> = Vec::new();
        actions.push(LayerAction::Emit(ClientMessage::TcpSteal(LayerTcpSteal::PortSubscribe(steal))));
        Ok(actions)
    }

    /// Handles a connection that the agent intercepted: the local application
    /// is dialled on the listener of the connection's port, and the connection
    /// is open from now on.
    pub fn handle_new_connection(&mut self, tcp_connection: NewTcpConnection) -> (outcome: Result<
        Vec<LayerAction>,
        LayerError,
    >)
        requires
            old(self).wf(),
        ensures
            final(self).wf(),
            final(self)@ == old(self)@.new_connection(tcp_connection),
            match old(self)@.new_connection_actions(tcp_connection) {
                Ok(expected) => outcome matches Ok(actions) && actions@ == expected,
                Err(error) => outcome == Err::<Vec<LayerAction>, LayerError>(error),
            },
    {
        let i = match self.listener_position(tcp_connection.destination_port) {
            Some(i) => i,
            None => {
                return Err(LayerError::PortNotFound(tcp_connection.destination_port));
            },
        };
        proof {
            let port = tcp_connection.destination_port;
            let chosen = choose|k: int| self@.listens_at(port, k);
            assert(self@.listens_at(port, chosen));
            if chosen != i {
                assert(self@.ports[chosen].requested_port != self@.ports[i as int].requested_port);
            }
        }
        let listen = self.ports[i];
        let ghost before = self@;
        if position_of(&self.connections, tcp_connection.connection_id).is_none() {
            self.connections.push(tcp_connection.connection_id);
            proof {
                crate::seq_facts::lemma_push_no_duplicates(
                    before.connections,
                    tcp_connection.connection_id,
                );
                assert(self@.connections =~= before.connections.push(tcp_connection.connection_id));
            }
        }
        let mut actions: Vec<LayerAction> = Vec::new();
        actions.push(
            LayerAction::Dial {
                connection_id: tcp_connection.connection_id,
                port: listen.mirror_port,
                ipv6: listen.ipv6,
            },
        );
        assert(actions@ =~= seq![
            LayerAction::Dial {
                connection_id: tcp_connection.connection_id,
                port: listen.mirror_port,
                ipv6: listen.ipv6,
            },
        ]);
        Ok(actions)
    }

    /// Handles bytes of a remote peer: they are written to the local end of
    /// the connection, which has to be open.
    pub fn handle_new_data(&self, data: TcpData) -> (outcome: Result<Vec<LayerAction>, LayerError>)
        ensures
            match self@.new_data_actions(data) {
                Ok(expected) => outcome matches Ok(actions) && actions@ == expected,
                Err(error) => outcome == Err::<Vec<LayerAction>, LayerError>(error),
            },
    {
        match position_of(&self.connections, data.connection_id) {
            Some(_) => {
                let TcpData { connection_id, bytes } = data;
                let mut actions: Vec<LayerAction> = Vec::new();
                actions.push(LayerAction::Write(connection_id, bytes));
                assert(actions@ =~= seq![LayerAction::Write(connection_id, bytes)]);
                Ok(actions)
            },
            None => Err(LayerError::NoConnectionId(data.connection_id)),
        }
    }

    /// Handles the end of a connection, be it that the agent announced it or
    /// that writing to the local application failed (`notify_agent`): both
    /// halves and the HTTP sender of the connection are dropped, and the agent
    /// is told where it does not know yet.
    pub fn close_connection(&mut self, connection_id: ConnectionId, notify_agent: bool) -> (actions:
        Vec<LayerAction>)
        requires
            old(self).wf(),
        ensures
            final(self).wf(),
            final(self)@ == old(self)@.close(connection_id),
            !final(self)@.connections.contains(connection_id),
            !final(self)@.senders.contains(connection_id),
            actions@ == if notify_agent {
                seq![
                    LayerAction::DropConnection(connection_id),
                    LayerAction::Emit(
                        ClientMessage::TcpSteal(LayerTcpSteal::ConnectionUnsubscribe(connection_id)),
                    ),
                ]
            } else {
                seq![LayerAction::DropConnection(connection_id)]
            },
    {
        self.connections = without_id(&self.connections, connection_id);
        self.senders = without_id(&self.senders, connection_id);
        let mut actions: Vec<LayerAction> = Vec::new();
        actions.push(LayerAction::DropConnection(connection_id));
        if notify_agent {
            actions.push(
                LayerAction::Emit(
                    ClientMessage::TcpSteal(LayerTcpSteal::ConnectionUnsubscribe(connection_id)),
                ),
            );
            assert(actions@ =~= seq![
                LayerAction::DropConnection(connection_id),
                LayerAction::Emit(
                    ClientMessage::TcpSteal(LayerTcpSteal::ConnectionUnsubscribe(connection_id)),
                ),
            ]);
        } else {
            assert(actions@ =~= seq![LayerAction::DropConnection(connection_id)]);
        }
        actions
    }

    /// Handles the agent's word that a connection is over.
    pub fn handle_close(&mut self, close: TcpClose) -> (actions: Vec<LayerAction>)
        requires
            old(self).wf(),
        ensures
            final(self).wf(),
            final(self)@ == old(self)@.close(close.connection_id),
            actions@ == seq![LayerAction::DropConnection(close.connection_id)],
    {
        self.close_connection(close.connection_id, false)
    }

    /// Handles a stolen HTTP request: it is passed to the local application
    /// through the HTTP sender of its connection, which is set up with the
    /// first request.
    pub fn handle_http_request(&mut self, request: HttpRequest) -> (actions: Vec<LayerAction>)
        requires
            old(self).wf(),
        ensures
            final(self).wf(),
            final(self)@ == old(self)@.http_request(request),
            actions@ == old(self)@.http_request_actions(request),
    {
        let ghost before = self@;
        let mut actions: Vec<LayerAction> = Vec::new();
        if position_of(&self.senders, request.connection_id).is_none() {
            self.senders.push(request.connection_id);
            proof {
                crate::seq_facts::lemma_push_no_duplicates(before.senders, request.connection_id);
                assert(self@.senders =~= before.senders.push(request.connection_id));
            }
            actions.push(
                LayerAction::ConnectHttp { connection_id: request.connection_id, port: request.port },
            );
            actions.push(LayerAction::ForwardRequest(request));
            assert(actions@ =~= seq![
                LayerAction::ConnectHttp {
                    connection_id: request.connection_id,
                    port: request.port,
                },
                LayerAction::ForwardRequest(request),
            ]);
        } else {
            actions.push(LayerAction::ForwardRequest(request));
            assert(actions@ =~= seq![LayerAction::ForwardRequest(request)]);
        }
        actions
    }

    /// Handles the local application's response to a stolen request: it goes
    /// to the agent as it is.
    pub fn handle_http_response(&self, response: HttpResponse) -> (message: ClientMessage)
        ensures
            message == ClientMessage::TcpSteal(LayerTcpSteal::HttpResponse(response)),
    {
        ClientMessage::TcpSteal(LayerTcpSteal::HttpResponse(response))
    }

    /// Handles what was read from the local end of a connection: data goes to
    /// the agent, the end of the stream makes the layer give up the connection,
    /// and a failed read is passed over.
    pub fn next(&self, connection_id: ConnectionId, value: Incoming) -> (message: Option<ClientMessage>)
        ensures
            message == match value {
                Incoming::Data(bytes) => Some(
                    ClientMessage::TcpSteal(LayerTcpSteal::Data(TcpData { connection_id, bytes })),
                ),
                Incoming::Error => None,
                Incoming::Eof => Some(
                    ClientMessage::TcpSteal(LayerTcpSteal::ConnectionUnsubscribe(connection_id)),
                ),
            },
    {
        match value {
            Incoming::Data(bytes) => Some(
                ClientMessage::TcpSteal(LayerTcpSteal::Data(TcpData { connection_id, bytes })),
            ),
            Incoming::Error => None,
            Incoming::Eof => Some(
                ClientMessage::TcpSteal(LayerTcpSteal::ConnectionUnsubscribe(connection_id)),
            ),
        }
    }

    /// Handles a message of the agent.
    pub fn handle_daemon_message(&mut self, message: DaemonTcp) -> (outcome: Result<
        Vec<LayerAction>,
        LayerError,
    >)
        requires
            old(self).wf(),
        ensures
            final(self).wf(),
            final(self)@ == old(self)@.daemon_message(message),
            match old(self)@.daemon_message_actions(message) {
                Ok(expected) => outcome matches Ok(actions) && actions@ == expected,
                Err(error) => outcome == Err::<Vec<LayerAction>, LayerError>(error),
            },
    {
        match message {
            DaemonTcp::NewConnection(connection) => self.handle_new_connection(connection),
            DaemonTcp::Data(data) => self.handle_new_data(data),
            DaemonTcp::Close(close) => Ok(self.handle_close(close)),
            DaemonTcp::SubscribeResult(result) => match result {
                Ok(_) => Ok(Vec::new()),
                Err(error) => Err(LayerError::SubscribeFailed(error)),
            },
            DaemonTcp::HttpRequest(request) => Ok(self.handle_http_request(request)),
        }
    }
}

} // verus!
