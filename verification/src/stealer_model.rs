//! The stealer as a state machine over mathematical values: what it holds, what
//! each event does to it, and what stays true through every event.

use crate::http_filter::{
    filter_for, HttpFilter, HttpFilterBuilder, HttpTrafficError, MatchedHttpRequest,
    StolenConnection,
};
use crate::http_traffic::{distinct_clients, has_client, ClientFilter, HttpFilterManagerView};
use crate::index_allocator::IndexAllocatorView;
use crate::ip_tables::{not_rule, Redirect};
use crate::probe::{classify, h2_preface, HttpVersion};
use crate::api::{ClientCommand, StealerCommand};
use crate::filter::accepted_filter;
use crate::protocol::{
    ClientId, ConnectionId, DaemonTcp, HttpRequest, HttpResponse, NewTcpConnection, Port,
    PortStealView, ResponseError, SocketAddress, TcpClose, TcpData,
};
use crate::response_queue::{ResponseQueueView, Slot};
use crate::subscriptions::{other_than, subscribers_of, topics_of, Subscription};
use vstd::prelude::*;

verus! {

/// Why the stealer cannot go on, or turns an event down.
#[derive(Clone, Copy, Debug, PartialEq, Eq, Structural)]
pub enum AgentError {
    /// Reading or writing failed.
    IO,
    /// A connection arrived for a port that nobody is subscribed to.
    UnexpectedConnection(Port),
    /// The stealer's own bookkeeping contradicts itself.
    AgentInvariantViolated,
    /// A command could not be handed to the stealer.
    SendStealerCommand,
    /// The redirect rule for this port could not be installed.
    RedirectFailed(Port),
    /// Every connection id is in use.
    ConnectionIdsExhausted,
    /// The HTTP filter turned a connection down.
    HttpTraffic(HttpTrafficError),
}

/// How an intercepted connection is handled.
#[derive(Clone, Copy, Debug, PartialEq, Eq, Structural)]
pub enum Disposition {
    /// All bytes go to the client that holds the port, and back.
    Raw,
    /// The connection is served as HTTP/1 and its requests are routed one by one.
    HttpFiltered,
    /// Bytes are copied to and from the original destination.
    PassThrough,
}

/// What the embedding program is to do after an event.
#[derive(Debug, PartialEq, Eq)]
pub enum StealerAction {
    /// Put the message on the client's response sink.
    Send(ClientId, DaemonTcp),
    /// Keep the accepted stream under this id, and report what is read from it.
    Register(ConnectionId),
    /// Run this on the accepted stream.
    StartFilter(HttpFilter),
    /// Write the bytes to the connection.
    Write(ConnectionId, Vec<u8>),
    /// Hand the response to the HTTP task of its connection.
    Respond(HttpResponse),
    /// Drop both halves of the connection.
    CloseConnection(ConnectionId),
    /// Drop the client's response sink.
    DropClient(ClientId),
    /// Remove the redirect rule `from -> to`.
    RemoveRedirect(Port, Port),
    /// Flush and unlink the chain.
    DropIpTables,
}

/// What a subscription asks for, with its filter checked.
pub enum RequestedView {
    /// All traffic of the port.
    FullPort,
    /// The HTTP requests that the pattern accepts.
    Filtered(Seq<char>),
    /// A filter that is not taken: no regular expression, or not of the
    /// plain kind.
    BadFilter,
}

/// What a subscription message asks for.
pub open spec fn requested_of(steal: PortStealView) -> RequestedView {
    match steal {
        PortStealView::Steal(_) => RequestedView::FullPort,
        PortStealView::HttpFilterSteal(_, pattern) => if accepted_filter(pattern) {
            RequestedView::Filtered(pattern)
        } else {
            RequestedView::BadFilter
        },
    }
}

/// What the stealer answers to an event.
#[derive(Debug, PartialEq, Eq)]
pub struct Step {
    /// What the worker is to do, in this order.
    pub actions: Vec<StealerAction>,
    /// Whether the worker goes on to wait for the next event.
    pub keep_running: bool,
}

/// What has to happen for a subscription.
#[derive(Clone, Copy, Debug, PartialEq, Eq, Structural)]
pub enum SubscribePlan {
    /// Turned down: the filter is not taken.
    BadFilter,
    /// Turned down: the port is taken.
    Conflict,
    /// The client holds the port already; only what it asks for may change.
    Update,
    /// The client joins the others that filter the port.
    Join,
    /// The port is not stolen yet: its redirect rule has to be installed
    /// first, and before that the chain itself if `init_guard` is set.
    Install { init_guard: bool },
}

/// One intercepted connection.
pub struct ConnectionView {
    pub connection_id: ConnectionId,
    /// The client that gets the bytes of a raw connection.
    pub client_id: Option<ClientId>,
    pub original_destination: SocketAddress,
    pub disposition: Disposition,
    /// The responses that are awaited on a filtered connection.
    pub responses: ResponseQueueView,
}

/// What came of reading from a connection.
#[derive(Debug, PartialEq, Eq)]
pub enum Incoming {
    Data(Vec<u8>),
    Eof,
    Error,
}

/// What the worker reports to the stealer.
#[derive(Debug, PartialEq, Eq)]
pub enum StealerEvent {
    /// A command arrived, or the command channel was closed (`None`).
    /// `rule_installed` answers the plan for a subscription.
    Command { command: Option<ClientCommand<StealerCommand>>, rule_installed: bool },
    /// A connection was accepted: where it was headed, where it came from, and
    /// the bytes peeked from it if its port is filtered.
    Accepted { destination: SocketAddress, source: SocketAddress, peeked: Vec<u8> },
    /// Accepting failed.
    AcceptFailed,
    /// Something was read from a raw connection.
    Read(ConnectionId, Incoming),
    /// The HTTP task of a connection matched a request.
    Matched(MatchedHttpRequest),
    /// The task that served a filtered or passed-through connection ended.
    ConnectionClosed(ConnectionId),
    /// A message could not be put on the sink of a client: the client is
    /// gone, and is treated as if it had taken its leave.
    SendFailed(ClientId),
    /// Bytes could not be written to a connection: the connection is over,
    /// as after a failed read.
    WriteFailed(ConnectionId),
    /// The worker is asked to stop.
    Cancelled,
}

/// Everything the stealer holds.
pub struct StealerView {
    /// The port of the stealer's own listener, to which the rules redirect.
    pub listener_port: Port,
    pub subscriptions: Seq<Subscription>,
    /// One manager for every port that is filtered.
    pub managers: Seq<HttpFilterManagerView>,
    /// The clients that have a response sink.
    pub clients: Seq<ClientId>,
    /// The rules in the chain; `None` while there is no chain.
    pub rules: Option<Seq<Redirect>>,
    pub allocator: IndexAllocatorView,
    pub connections: Seq<ConnectionView>,
}

/// An empty queue.
pub open spec fn no_responses() -> ResponseQueueView {
    ResponseQueueView { slots: Seq::<Slot>::empty(), last_released: None }
}

/// The filters without that of `client`.
pub open spec fn without_client(filters: Seq<ClientFilter>, client: ClientId) -> Seq<ClientFilter> {
    if has_client(filters, client) {
        filters.remove(choose|i: int| 0 <= i < filters.len() && (#[trigger] filters[i]).0 == client)
    } else {
        filters
    }
}

/// The filters with that of `client` set to `pattern`: in its place if the
/// client has one, else at the end.
pub open spec fn with_client(filters: Seq<ClientFilter>, client: ClientId, pattern: Seq<char>) -> Seq<
    ClientFilter,
> {
    if has_client(filters, client) {
        filters.update(
            choose|i: int| 0 <= i < filters.len() && (#[trigger] filters[i]).0 == client,
            (client, pattern),
        )
    } else {
        filters.push((client, pattern))
    }
}

/// Picks the connections that `client` does not own.
pub open spec fn not_owned_by(client: ClientId) -> spec_fn(ConnectionView) -> bool {
    |connection: ConnectionView| connection.client_id != Some(client)
}

/// Picks the connections that `client` owns.
pub open spec fn owned_by(client: ClientId) -> spec_fn(ConnectionView) -> bool {
    |connection: ConnectionView| connection.client_id == Some(client)
}

/// Picks the clients other than `client`.
pub open spec fn not_client(client: ClientId) -> spec_fn(ClientId) -> bool {
    |other: ClientId| other != client
}

/// The action that closes a connection.
pub open spec fn closing() -> spec_fn(ConnectionView) -> StealerAction {
    |connection: ConnectionView| StealerAction::CloseConnection(connection.connection_id)
}

/// The action that hands over a response.
pub open spec fn responding() -> spec_fn(HttpResponse) -> StealerAction {
    |response: HttpResponse| StealerAction::Respond(response)
}

impl StealerView {
    /// Somebody is subscribed to `port`.
    pub open spec fn has_subscriber(self, port: Port) -> bool {
        exists|client: ClientId| self.subscriptions.contains((port, client))
    }

    /// Somebody other than `client` is subscribed to `port`.
    pub open spec fn has_other_subscriber(self, port: Port, client: ClientId) -> bool {
        exists|other: ClientId| other != client && self.subscriptions.contains((port, other))
    }

    /// The manager at position `i` is that of `port`.
    pub open spec fn manages(self, port: Port, i: int) -> bool {
        0 <= i < self.managers.len() && self.managers[i].port == port
    }

    /// The traffic of `port` is filtered.
    pub open spec fn is_filtered(self, port: Port) -> bool {
        exists|i: int| self.manages(port, i)
    }

    /// The position of the manager of a filtered port.
    pub open spec fn manager_at(self, port: Port) -> int {
        choose|i: int| self.manages(port, i)
    }

    /// The rule that steals `port`.
    pub open spec fn rule_for(self, port: Port) -> Redirect {
        (port, self.listener_port)
    }

    /// The connection at position `i` has this id.
    pub open spec fn holds(self, connection_id: ConnectionId, i: int) -> bool {
        0 <= i < self.connections.len() && self.connections[i].connection_id == connection_id
    }

    /// There is a record of this connection.
    pub open spec fn has_connection(self, connection_id: ConnectionId) -> bool {
        exists|i: int| self.holds(connection_id, i)
    }

    /// The position of a connection's record.
    pub open spec fn connection_at(self, connection_id: ConnectionId) -> int {
        choose|i: int| self.holds(connection_id, i)
    }

    /// The stealer before anything happened.
    pub open spec fn initial(listener_port: Port) -> StealerView {
        StealerView {
            listener_port,
            subscriptions: Seq::empty(),
            managers: Seq::empty(),
            clients: Seq::empty(),
            rules: None,
            allocator: IndexAllocatorView { next_fresh: 0, vacant: Seq::empty() },
            connections: Seq::empty(),
        }
    }

    /// Subscriptions and filters agree: every manager has a client, no client
    /// twice and no port has two managers; the clients of a manager are the
    /// subscribers of its port; and a port without a manager has at most one
    /// subscriber.
    pub open spec fn subscriptions_inv(self) -> bool {
        &&& self.subscriptions.no_duplicates()
        &&& forall|i: int|
            0 <= i < self.managers.len() ==> distinct_clients((#[trigger] self.managers[i]).filters)
                && self.managers[i].filters.len() > 0
        &&& forall|i: int, j: int|
            0 <= i < self.managers.len() && 0 <= j < self.managers.len() && i != j ==> (
            #[trigger] self.managers[i]).port != (#[trigger] self.managers[j]).port
        &&& forall|i: int, client: ClientId|
            0 <= i < self.managers.len() ==> (has_client(
                (#[trigger] self.managers[i]).filters,
                client,
            ) <==> #[trigger] self.subscriptions.contains((self.managers[i].port, client)))
        &&& forall|port: Port, a: ClientId, b: ClientId|
            #[trigger] self.subscriptions.contains((port, a)) && #[trigger] self.subscriptions.contains(
                (port, b),
            ) && !self.is_filtered(port) ==> a == b
    }

    /// The chain mirrors the subscriptions: it exists exactly while there is a
    /// subscription, holds no rule twice, and holds the rule of a port exactly
    /// if somebody is subscribed to that port.
    pub open spec fn rules_inv(self) -> bool {
        &&& self.rules.is_some() <==> self.subscriptions.len() > 0
        &&& self.rules matches Some(rules) ==> {
            &&& rules.no_duplicates()
            &&& forall|i: int| 0 <= i < rules.len() ==> (#[trigger] rules[i]).1 == self.listener_port
            &&& forall|port: Port|
                #[trigger] rules.contains((port, self.listener_port)) <==> self.has_subscriber(port)
        }
    }

    /// Every connection has one record, under an id that is in use, and its
    /// responses are in order.
    pub open spec fn connections_inv(self) -> bool {
        &&& self.allocator.wf()
        &&& forall|i: int, j: int|
            0 <= i < self.connections.len() && 0 <= j < self.connections.len() && i != j ==> (
            #[trigger] self.connections[i]).connection_id != (
            #[trigger] self.connections[j]).connection_id
        &&& forall|i: int|
            0 <= i < self.connections.len() ==> self.allocator.is_allocated(
                (#[trigger] self.connections[i]).connection_id,
            ) && self.connections[i].responses.wf()
    }

    /// What stays true of the stealer through every event.
    pub open spec fn inv(self) -> bool {
        &&& self.subscriptions_inv()
        &&& self.rules_inv()
        &&& self.connections_inv()
        &&& self.clients.no_duplicates()
    }

    // ---------------------------------------------------------------- clients

    /// A client got its response sink.
    pub open spec fn new_client(self, client: ClientId) -> StealerView {
        if self.clients.contains(client) {
            self
        } else {
            StealerView { clients: self.clients.push(client), ..self }
        }
    }

    /// The actions that put `message` on the sink of `client`, if it has one.
    pub open spec fn send_to(self, client: ClientId, message: DaemonTcp) -> Seq<StealerAction> {
        if self.clients.contains(client) {
            seq![StealerAction::Send(client, message)]
        } else {
            Seq::empty()
        }
    }

    // ---------------------------------------------------------- subscriptions

    /// What has to happen when `client` asks for `port`.
    pub open spec fn plan(self, client: ClientId, port: Port, requested: RequestedView) -> SubscribePlan {
        match requested {
            RequestedView::BadFilter => SubscribePlan::BadFilter,
            RequestedView::FullPort => {
                if self.has_other_subscriber(port, client) {
                    SubscribePlan::Conflict
                } else if self.subscriptions.contains((port, client)) {
                    SubscribePlan::Update
                } else {
                    SubscribePlan::Install { init_guard: self.rules.is_none() }
                }
            },
            RequestedView::Filtered(_) => {
                if self.has_other_subscriber(port, client) && !self.is_filtered(port) {
                    SubscribePlan::Conflict
                } else if self.subscriptions.contains((port, client)) {
                    SubscribePlan::Update
                } else if self.has_subscriber(port) {
                    SubscribePlan::Join
                } else {
                    SubscribePlan::Install { init_guard: self.rules.is_none() }
                }
            },
        }
    }

    /// The managers once `client` asks `requested` of `port`.
    pub open spec fn managers_with(self, client: ClientId, port: Port, requested: RequestedView) -> Seq<
        HttpFilterManagerView,
    > {
        match requested {
            RequestedView::BadFilter => self.managers,
            RequestedView::FullPort => {
                if self.is_filtered(port) {
                    self.managers.remove(self.manager_at(port))
                } else {
                    self.managers
                }
            },
            RequestedView::Filtered(pattern) => {
                if self.is_filtered(port) {
                    let i = self.manager_at(port);
                    self.managers.update(
                        i,
                        HttpFilterManagerView {
                            port,
                            filters: with_client(self.managers[i].filters, client, pattern),
                        },
                    )
                } else {
                    self.managers.push(
                        HttpFilterManagerView { port, filters: seq![(client, pattern)] },
                    )
                }
            },
        }
    }

    /// The stealer after `client` asked `requested` of `port`. `installed` says
    /// whether the rule that the plan asks for is in place; it counts only
    /// where the plan asks for one.
    pub open spec fn subscribe(
        self,
        client: ClientId,
        port: Port,
        requested: RequestedView,
        installed: bool,
    ) -> StealerView {
        match self.plan(client, port, requested) {
            SubscribePlan::BadFilter => self,
            SubscribePlan::Conflict => self,
            SubscribePlan::Update => StealerView {
                managers: self.managers_with(client, port, requested),
                ..self
            },
            SubscribePlan::Join => StealerView {
                subscriptions: self.subscriptions.push((port, client)),
                managers: self.managers_with(client, port, requested),
                ..self
            },
            SubscribePlan::Install { init_guard } => if installed {
                StealerView {
                    subscriptions: self.subscriptions.push((port, client)),
                    managers: self.managers_with(client, port, requested),
                    rules: Some(
                        match self.rules {
                            Some(rules) => rules.push(self.rule_for(port)),
                            None => seq![self.rule_for(port)],
                        },
                    ),
                    ..self
                }
            } else {
                self
            },
        }
    }

    /// What the client is told about its subscription; nothing where the
    /// stealer fails.
    pub open spec fn subscribe_reply(
        self,
        client: ClientId,
        port: Port,
        requested: RequestedView,
        installed: bool,
    ) -> Option<Result<Port, ResponseError>> {
        match self.plan(client, port, requested) {
            SubscribePlan::BadFilter => Some(Err(ResponseError::BadHttpFilterRegex(port))),
            SubscribePlan::Conflict => Some(Err(ResponseError::PortAlreadyStolen(port))),
            SubscribePlan::Update => Some(Ok(port)),
            SubscribePlan::Join => Some(Ok(port)),
            SubscribePlan::Install { init_guard } => if installed {
                Some(Ok(port))
            } else {
                None
            },
        }
    }

    /// The managers once `client` left `port`.
    pub open spec fn managers_without(self, client: ClientId, port: Port) -> Seq<
        HttpFilterManagerView,
    > {
        if self.is_filtered(port) {
            let i = self.manager_at(port);
            let left = without_client(self.managers[i].filters, client);
            if left.len() == 0 {
                self.managers.remove(i)
            } else {
                self.managers.update(i, HttpFilterManagerView { port, filters: left })
            }
        } else {
            self.managers
        }
    }

    /// The stealer after `client` gave up `port`.
    pub open spec fn unsubscribe(self, client: ClientId, port: Port) -> StealerView {
        let subscriptions = self.subscriptions.filter(other_than(port, client));
        let after = StealerView {
            subscriptions,
            managers: self.managers_without(client, port),
            ..self
        };
        StealerView {
            rules: match self.rules {
                None => None,
                Some(rules) => if subscriptions.len() == 0 {
                    None
                } else if after.has_subscriber(port) {
                    Some(rules)
                } else {
                    Some(rules.filter(not_rule(self.rule_for(port))))
                },
            },
            ..after
        }
    }

    /// What is to be done to the chain when `client` gives up `port`: the rule
    /// goes when the last subscriber of the port does, and the chain when the
    /// last subscription does.
    pub open spec fn unsubscribe_actions(self, client: ClientId, port: Port) -> Seq<StealerAction> {
        let after = self.unsubscribe(client, port);
        let rule = if self.rules matches Some(rules) && rules.contains(self.rule_for(port))
            && !after.has_subscriber(port) {
            seq![StealerAction::RemoveRedirect(port, self.listener_port)]
        } else {
            Seq::empty()
        };
        let chain = if self.rules.is_some() && after.rules.is_none() {
            seq![StealerAction::DropIpTables]
        } else {
            Seq::empty()
        };
        rule + chain
    }

    /// The stealer after `client` gave up each of `ports` in turn.
    pub open spec fn unsubscribe_all(self, client: ClientId, ports: Seq<Port>) -> StealerView
        decreases ports.len(),
    {
        if ports.len() == 0 {
            self
        } else {
            self.unsubscribe(client, ports.first()).unsubscribe_all(client, ports.drop_first())
        }
    }

    /// What is to be done to the chain when `client` gives up each of `ports`
    /// in turn.
    pub open spec fn unsubscribe_all_actions(self, client: ClientId, ports: Seq<Port>) -> Seq<
        StealerAction,
    >
        decreases ports.len(),
    {
        if ports.len() == 0 {
            Seq::empty()
        } else {
            self.unsubscribe_actions(client, ports.first()) + self.unsubscribe(
                client,
                ports.first(),
            ).unsubscribe_all_actions(client, ports.drop_first())
        }
    }

    /// The stealer after `client` went away: its subscriptions are given up,
    /// its sink is dropped and its connections are closed.
    pub open spec fn close_client(self, client: ClientId) -> StealerView {
        let after = self.unsubscribe_all(client, topics_of(self.subscriptions, client));
        StealerView {
            clients: after.clients.filter(not_client(client)),
            connections: after.connections.filter(not_owned_by(client)),
            ..after
        }
    }

    /// What is to be done when `client` goes away: the chain is brought up to
    /// date, the client's sink is dropped, and its connections are closed,
    /// oldest first.
    pub open spec fn close_client_actions(self, client: ClientId) -> Seq<StealerAction> {
        self.unsubscribe_all_actions(client, topics_of(self.subscriptions, client))
            + seq![StealerAction::DropClient(client)] + self.connections.filter(
            owned_by(client),
        ).map_values(closing())
    }

    // ------------------------------------------------------------ connections

    /// The stealer after the record of a connection was dropped.
    pub open spec fn drop_connection(self, connection_id: ConnectionId) -> StealerView {
        if self.has_connection(connection_id) {
            StealerView {
                connections: self.connections.remove(self.connection_at(connection_id)),
                ..self
            }
        } else {
            self
        }
    }

    /// What is to be done when the layer gives up a connection.
    pub open spec fn connection_unsubscribe_actions(self, connection_id: ConnectionId) -> Seq<
        StealerAction,
    > {
        if self.has_connection(connection_id) {
            seq![StealerAction::CloseConnection(connection_id)]
        } else {
            Seq::empty()
        }
    }

    /// The client that gets a raw connection to `port`: the oldest subscriber.
    pub open spec fn recipient(self, port: Port) -> ClientId {
        subscribers_of(self.subscriptions, port).first()
    }

    /// The record of a fresh connection.
    pub open spec fn fresh_connection(
        self,
        connection_id: ConnectionId,
        destination: SocketAddress,
        peeked: Seq<u8>,
    ) -> ConnectionView {
        ConnectionView {
            connection_id,
            client_id: if self.is_filtered(destination.port) {
                None
            } else {
                Some(self.recipient(destination.port))
            },
            original_destination: destination,
            disposition: if !self.is_filtered(destination.port) {
                Disposition::Raw
            } else if classify(peeked, h2_preface()) == HttpVersion::V1 {
                Disposition::HttpFiltered
            } else {
                Disposition::PassThrough
            },
            responses: no_responses(),
        }
    }

    /// Why an accepted connection is turned down, if it is: nobody is
    /// subscribed to its port, nothing could be peeked from a connection that
    /// is to be filtered, or the ids have run out.
    pub open spec fn refusal(self, destination: SocketAddress, peeked: Seq<u8>) -> Option<AgentError> {
        if !self.has_subscriber(destination.port) {
            Some(AgentError::UnexpectedConnection(destination.port))
        } else if self.is_filtered(destination.port) && peeked.len() == 0 {
            Some(AgentError::HttpTraffic(HttpTrafficError::Empty))
        } else if self.allocator.is_exhausted() {
            Some(AgentError::ConnectionIdsExhausted)
        } else {
            None
        }
    }

    /// A raw connection would go to a client that has no sink any more. Its
    /// subscriptions are stale; they are cleared away and the connection is
    /// dropped.
    pub open spec fn recipient_is_gone(self, destination: SocketAddress, peeked: Seq<u8>) -> bool {
        self.refusal(destination, peeked).is_none() && !self.is_filtered(destination.port)
            && !self.clients.contains(self.recipient(destination.port))
    }

    /// The stealer after a connection was accepted.
    pub open spec fn incoming_connection(self, destination: SocketAddress, peeked: Seq<u8>) -> StealerView {
        if self.refusal(destination, peeked).is_some() {
            self
        } else if self.recipient_is_gone(destination, peeked) {
            self.close_client(self.recipient(destination.port))
        } else {
            StealerView {
                allocator: self.allocator.after_allocation(),
                connections: self.connections.push(
                    self.fresh_connection(
                        self.allocator.upcoming().unwrap(),
                        destination,
                        peeked,
                    ),
                ),
                ..self
            }
        }
    }

    /// What is to be done with an accepted connection that is not turned down.
    pub open spec fn incoming_connection_actions(
        self,
        destination: SocketAddress,
        source: SocketAddress,
        peeked: Seq<u8>,
    ) -> Seq<StealerAction> {
        if self.refusal(destination, peeked).is_some() {
            Seq::empty()
        } else if self.recipient_is_gone(destination, peeked) {
            self.close_client_actions(self.recipient(destination.port))
        } else {
            let connection_id = self.allocator.upcoming().unwrap();
            if self.is_filtered(destination.port) {
                seq![
                    StealerAction::StartFilter(
                        filter_for(
                            HttpFilterBuilder {
                                http_version: classify(peeked, h2_preface()),
                                stolen_connection: StolenConnection {
                                    original_address: destination,
                                    connection_id,
                                },
                            },
                        ),
                    ),
                ]
            } else {
                seq![
                    StealerAction::Register(connection_id),
                    StealerAction::Send(
                        self.recipient(destination.port),
                        DaemonTcp::NewConnection(
                            NewTcpConnection {
                                connection_id,
                                address: source.ip,
                                destination_port: destination.port,
                                source_port: source.port,
                            },
                        ),
                    ),
                ]
            }
        }
    }

    /// The client to which the bytes of a connection go: the owner of a raw
    /// connection, as long as it has a sink.
    pub open spec fn reader_of(self, connection_id: ConnectionId) -> Option<ClientId> {
        if self.has_connection(connection_id) {
            let connection = self.connections[self.connection_at(connection_id)];
            match connection.client_id {
                Some(client) => if self.clients.contains(client) {
                    Some(client)
                } else {
                    None
                },
                None => None,
            }
        } else {
            None
        }
    }

    /// The stealer after something was read from a connection: the record goes
    /// unless there is data for a client to get.
    pub open spec fn forward_incoming(self, connection_id: ConnectionId, incoming: Incoming) -> StealerView {
        if incoming is Data && self.reader_of(connection_id).is_some() {
            self
        } else {
            self.drop_connection(connection_id)
        }
    }

    /// What is to be done with what was read from a connection: data goes to
    /// the client; at the end of the stream, or when reading failed, the client
    /// is told and the connection is closed. A connection whose client cannot be
    /// found is closed.
    pub open spec fn forward_incoming_actions(self, connection_id: ConnectionId, incoming: Incoming) -> Seq<
        StealerAction,
    > {
        if !self.has_connection(connection_id) {
            Seq::empty()
        } else {
            match self.reader_of(connection_id) {
                None => seq![StealerAction::CloseConnection(connection_id)],
                Some(client) => match incoming {
                    Incoming::Data(bytes) => seq![
                        StealerAction::Send(
                            client,
                            DaemonTcp::Data(TcpData { connection_id, bytes }),
                        ),
                    ],
                    _ => seq![
                        StealerAction::Send(client, DaemonTcp::Close(TcpClose { connection_id })),
                        StealerAction::CloseConnection(connection_id),
                    ],
                },
            }
        }
    }

    /// Whether bytes can be written to a connection: it is a raw one.
    pub open spec fn is_writable(self, connection_id: ConnectionId) -> bool {
        self.has_connection(connection_id) && self.connections[self.connection_at(
            connection_id,
        )].disposition == Disposition::Raw
    }

    /// What is to be done with bytes that the layer sends for a connection.
    pub open spec fn forward_data_actions(self, data: TcpData) -> Seq<StealerAction> {
        if self.is_writable(data.connection_id) {
            seq![StealerAction::Write(data.connection_id, data.bytes)]
        } else {
            Seq::empty()
        }
    }

    // ------------------------------------------------------------------- HTTP

    /// Whether a matched request can go to its client: its connection is a
    /// filtered one, the client has a sink, and the request's id is in turn.
    pub open spec fn takes_request(self, request: MatchedHttpRequest) -> bool {
        &&& self.has_connection(request.connection_id)
        &&& self.connections[self.connection_at(request.connection_id)].disposition
            == Disposition::HttpFiltered
        &&& self.clients.contains(request.client_id)
        &&& self.connections[self.connection_at(request.connection_id)].responses.admits(
            request.request_id,
        )
    }

    /// The stealer after a request was matched.
    pub open spec fn matched_request(self, request: MatchedHttpRequest) -> StealerView {
        if self.takes_request(request) {
            let i = self.connection_at(request.connection_id);
            StealerView {
                connections: self.connections.update(
                    i,
                    ConnectionView {
                        responses: self.connections[i].responses.expect(request.request_id),
                        ..self.connections[i]
                    },
                ),
                ..self
            }
        } else {
            self
        }
    }

    /// What is to be done with a matched request.
    pub open spec fn matched_request_actions(self, request: MatchedHttpRequest) -> Seq<StealerAction> {
        if self.takes_request(request) {
            seq![
                StealerAction::Send(
                    request.client_id,
                    DaemonTcp::HttpRequest(
                        HttpRequest {
                            request: request.request,
                            connection_id: request.connection_id,
                            request_id: request.request_id,
                            port: request.port,
                        },
                    ),
                ),
            ]
        } else {
            Seq::empty()
        }
    }

    /// Whether a response belongs to a filtered connection.
    pub open spec fn takes_response(self, response: HttpResponse) -> bool {
        self.has_connection(response.connection_id) && self.connections[self.connection_at(
            response.connection_id,
        )].disposition == Disposition::HttpFiltered
    }

    /// The stealer after a response came from the layer.
    pub open spec fn http_response(self, response: HttpResponse) -> StealerView {
        if self.takes_response(response) {
            let i = self.connection_at(response.connection_id);
            StealerView {
                connections: self.connections.update(
                    i,
                    ConnectionView {
                        responses: self.connections[i].responses.arrive(response),
                        ..self.connections[i]
                    },
                ),
                ..self
            }
        } else {
            self
        }
    }

    /// What is to be done with a response from the layer: the responses that
    /// are due now are handed over, in the order of their requests.
    pub open spec fn http_response_actions(self, response: HttpResponse) -> Seq<StealerAction> {
        if self.takes_response(response) {
            self.connections[self.connection_at(response.connection_id)].responses.released(
                response,
            ).map_values(responding())
        } else {
            Seq::empty()
        }
    }

    // ----------------------------------------------------------------- events

    /// The stealer after a command of `client`.
    pub open spec fn handle_command(self, client: ClientId, command: StealerCommand, installed: bool) -> StealerView {
        match command {
            StealerCommand::NewClient => self.new_client(client),
            StealerCommand::PortSubscribe(steal) => self.subscribe(
                client,
                steal@.port(),
                requested_of(steal@),
                installed,
            ),
            StealerCommand::PortUnsubscribe(port) => self.unsubscribe(client, port),
            StealerCommand::ClientClose => self.close_client(client),
            StealerCommand::ConnectionUnsubscribe(connection_id) => self.drop_connection(
                connection_id,
            ),
            StealerCommand::ResponseData(_) => self,
            StealerCommand::HttpResponse(response) => self.http_response(response),
        }
    }

    /// What is to be done on a command of `client`, or why the stealer cannot
    /// go on.
    pub open spec fn handle_command_actions(
        self,
        client: ClientId,
        command: StealerCommand,
        installed: bool,
    ) -> Result<Seq<StealerAction>, AgentError> {
        match command {
            StealerCommand::NewClient => Ok(Seq::empty()),
            StealerCommand::PortSubscribe(steal) => match self.subscribe_reply(
                client,
                steal@.port(),
                requested_of(steal@),
                installed,
            ) {
                Some(reply) => Ok(self.send_to(client, DaemonTcp::SubscribeResult(reply))),
                None => Err(AgentError::RedirectFailed(steal@.port())),
            },
            StealerCommand::PortUnsubscribe(port) => Ok(self.unsubscribe_actions(client, port)),
            StealerCommand::ClientClose => Ok(self.close_client_actions(client)),
            StealerCommand::ConnectionUnsubscribe(connection_id) => Ok(
                self.connection_unsubscribe_actions(connection_id),
            ),
            StealerCommand::ResponseData(data) => Ok(self.forward_data_actions(data)),
            StealerCommand::HttpResponse(response) => Ok(self.http_response_actions(response)),
        }
    }

    /// The stealer after an event.
    pub open spec fn handle_event(self, event: StealerEvent) -> StealerView {
        match event {
            StealerEvent::Command { command: Some(command), rule_installed } => self.handle_command(
                command.client_id,
                command.command,
                rule_installed,
            ),
            StealerEvent::Command { command: None, rule_installed } => self,
            StealerEvent::Accepted { destination, source, peeked } => self.incoming_connection(
                destination,
                peeked@,
            ),
            StealerEvent::AcceptFailed => self,
            StealerEvent::Read(connection_id, incoming) => self.forward_incoming(
                connection_id,
                incoming,
            ),
            StealerEvent::Matched(request) => self.matched_request(request),
            StealerEvent::ConnectionClosed(connection_id) => self.drop_connection(connection_id),
            StealerEvent::SendFailed(client) => self.close_client(client),
            StealerEvent::WriteFailed(connection_id) => self.forward_incoming(
                connection_id,
                Incoming::Error,
            ),
            StealerEvent::Cancelled => self,
        }
    }

    /// What is to be done on an event, or why the stealer cannot go on. Only
    /// a rule that cannot be installed stops the stealer; a connection that is
    /// turned down is dropped, and nothing else is done. A failed send counts
    /// as the client's leave, and a failed write as the end of its connection.
    pub open spec fn handle_event_actions(self, event: StealerEvent) -> Result<
        Seq<StealerAction>,
        AgentError,
    > {
        match event {
            StealerEvent::Command { command: Some(command), rule_installed } => {
                self.handle_command_actions(command.client_id, command.command, rule_installed)
            },
            StealerEvent::Accepted { destination, source, peeked } => Ok(
                self.incoming_connection_actions(destination, source, peeked@),
            ),
            StealerEvent::Read(connection_id, incoming) => Ok(
                self.forward_incoming_actions(connection_id, incoming),
            ),
            StealerEvent::Matched(request) => Ok(self.matched_request_actions(request)),
            StealerEvent::SendFailed(client) => Ok(self.close_client_actions(client)),
            StealerEvent::WriteFailed(connection_id) => Ok(
                self.forward_incoming_actions(connection_id, Incoming::Error),
            ),
            _ => Ok(Seq::empty()),
        }
    }

    /// Whether the worker goes on after an event: it stops when its command
    /// channel is closed, when accepting fails and when it is cancelled.
    pub open spec fn keeps_running(event: StealerEvent) -> bool {
        match event {
            StealerEvent::Command { command: None, rule_installed } => false,
            StealerEvent::AcceptFailed => false,
            StealerEvent::Cancelled => false,
            _ => true,
        }
    }
}

} // verus!
