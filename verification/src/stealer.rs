//! The stealer: the state that one worker owns, and what it decides on every
//! command, accepted connection and read.
//!
//! The worker that embeds a [`TcpConnectionStealer`] owns the sockets, the
//! channels and the packet filter. It reports each event to the stealer and
//! carries out the [`StealerAction`]s that come back, in their order.

use crate::api::{ClientCommand, StealerCommand};
use crate::filter::HeaderFilter;
use crate::http_filter::{HttpFilter, HttpTrafficError, MatchedHttpRequest, StolenConnection};
use crate::http_traffic::{HttpFilterManager, HttpFilterManagerView};
use crate::index_allocator::IndexAllocator;
use crate::ip_tables::SafeIpTables;
use crate::protocol::{
    ClientId, ConnectionId, DaemonTcp, HttpRequest, HttpResponse, NewTcpConnection, Port,
    PortSteal, ResponseError, SocketAddress, TcpClose, TcpData,
};
use crate::response_queue::ResponseQueue;
use crate::stealer_laws::{
    lemma_client_place, lemma_close_client, lemma_connection_unique, lemma_drop_connection,
    lemma_http_response_keeps_inv, lemma_incoming_connection, lemma_manager_unique,
    lemma_matched_request_keeps_inv, lemma_new_client_keeps_inv, lemma_subscribe_keeps_inv,
    lemma_unsubscribe_keeps_inv,
};
use crate::stealer_model::{
    closing, not_client, not_owned_by, owned_by, requested_of, responding,
    with_client, without_client, AgentError, ConnectionView, Disposition, Incoming,
    RequestedView, StealerAction, StealerEvent, StealerView, Step, SubscribePlan,
};
use crate::subscriptions::Subscriptions;
use vstd::prelude::*;

verus! {

/// What a subscription asks for, with its filter compiled.
#[derive(Debug)]
pub enum Requested {
    /// All traffic of the port.
    FullPort,
    /// The HTTP requests that the filter accepts.
    Filtered(HeaderFilter),
    /// A filter that is not taken: no regular expression, or not of the
    /// plain kind.
    BadFilter,
}

impl View for Requested {
    type V = RequestedView;

    open spec fn view(&self) -> RequestedView {
        match self {
            Requested::FullPort => RequestedView::FullPort,
            Requested::Filtered(filter) => RequestedView::Filtered(filter@),
            Requested::BadFilter => RequestedView::BadFilter,
        }
    }
}

impl Requested {
    /// Reads a subscription message and compiles its filter.
    pub fn compile(steal: &PortSteal) -> (compiled: (Port, Requested))
        ensures
            compiled.0 == steal@.port(),
            compiled.1@ == requested_of(steal@),
    {
        match steal {
            PortSteal::Steal(port) => (*port, Requested::FullPort),
            PortSteal::HttpFilterSteal(port, pattern) => match HeaderFilter::new(pattern.as_str()) {
                Some(filter) => (*port, Requested::Filtered(filter)),
                None => (*port, Requested::BadFilter),
            },
        }
    }
}

/// The record of one intercepted connection.
#[derive(Debug)]
pub struct ConnectionRecord {
    connection_id: ConnectionId,
    client_id: Option<ClientId>,
    original_destination: SocketAddress,
    disposition: Disposition,
    responses: ResponseQueue,
}

impl View for ConnectionRecord {
    type V = ConnectionView;

    closed spec fn view(&self) -> ConnectionView {
        ConnectionView {
            connection_id: self.connection_id,
            client_id: self.client_id,
            original_destination: self.original_destination,
            disposition: self.disposition,
            responses: self.responses@,
        }
    }
}

/// The views of a list of managers, in order.
pub open spec fn managers_view(managers: Seq<HttpFilterManager>) -> Seq<HttpFilterManagerView> {
    Seq::new(managers.len(), |i: int| managers[i]@)
}

/// The views of a list of connection records, in order.
pub open spec fn connections_view(records: Seq<ConnectionRecord>) -> Seq<ConnectionView> {
    Seq::new(records.len(), |i: int| records[i]@)
}

/// Steals the traffic of the ports that clients subscribe to.
#[derive(Debug)]
pub struct TcpConnectionStealer {
    listener_port: Port,
    port_subscriptions: Subscriptions,
    filter_managers: Vec<HttpFilterManager>,
    clients: Vec<ClientId>,
    guard: bool,
    iptables: SafeIpTables,
    index_allocator: IndexAllocator,
    connections: Vec<ConnectionRecord>,
}

impl View for TcpConnectionStealer {
    type V = StealerView;

    closed spec fn view(&self) -> StealerView {
        StealerView {
            listener_port: self.listener_port,
            subscriptions: self.port_subscriptions@,
            managers: managers_view(self.filter_managers@),
            clients: self.clients@,
            rules: if self.guard {
                Some(self.iptables@)
            } else {
                None
            },
            allocator: self.index_allocator@,
            connections: connections_view(self.connections@),
        }
    }
}

impl TcpConnectionStealer {
    /// The stealer is consistent: see [`StealerView::inv`].
    pub open spec fn wf(&self) -> bool {
        self@.inv()
    }

    /// A stealer whose listener is bound to `listener_port`, with no client, no
    /// subscription and no chain.
    pub fn new(listener_port: Port) -> (stealer: TcpConnectionStealer)
        ensures
            stealer.wf(),
            stealer@ == StealerView::initial(listener_port),
    {
        let stealer = TcpConnectionStealer {
            listener_port,
            port_subscriptions: Subscriptions::new(),
            filter_managers: Vec::new(),
            clients: Vec::new(),
            guard: false,
            iptables: SafeIpTables::new(),
            index_allocator: IndexAllocator::new(),
            connections: Vec::new(),
        };
        proof {
            assert(stealer@.managers =~= Seq::empty());
            assert(stealer@.connections =~= Seq::empty());
            assert(stealer@.subscriptions =~= Seq::empty());
            assert(stealer@.clients =~= Seq::empty());
        }
        stealer
    }

    /// The port to which the redirect rules send the stolen traffic.
    pub fn listener_port(&self) -> (port: Port)
        ensures
            port == self@.listener_port,
    {
        self.listener_port
    }

    fn manager_position(&self, port: Port) -> (position: Option<usize>)
        ensures
            match position {
                Some(i) => self@.manages(port, i as int),
                None => !self@.is_filtered(port),
            },
    {
        let mut i: usize = 0;
        while i < self.filter_managers.len()
            invariant
                i <= self.filter_managers@.len(),
                forall|j: int| 0 <= j < i ==> !self@.manages(port, j),
            decreases self.filter_managers@.len() - i,
        {
            if self.filter_managers[i].port() == port {
                return Some(i);
            }
            i += 1;
        }
        None
    }

    fn connection_position(&self, connection_id: ConnectionId) -> (position: Option<usize>)
        ensures
            match position {
                Some(i) => self@.holds(connection_id, i as int),
                None => !self@.has_connection(connection_id),
            },
    {
        let mut i: usize = 0;
        while i < self.connections.len()
            invariant
                i <= self.connections@.len(),
                forall|j: int| 0 <= j < i ==> !self@.holds(connection_id, j),
            decreases self.connections@.len() - i,
        {
            if self.connections[i].connection_id == connection_id {
                return Some(i);
            }
            i += 1;
        }
        None
    }

    /// Whether the client has a sink.
    pub fn is_client(&self, client_id: ClientId) -> (registered: bool)
        ensures
            registered == self@.clients.contains(client_id),
    {
        let mut i: usize = 0;
        while i < self.clients.len()
            invariant
                i <= self.clients@.len(),
                forall|j: int| 0 <= j < i ==> self.clients@[j] != client_id,
            decreases self.clients@.len() - i,
        {
            if self.clients[i] == client_id {
                return true;
            }
            i += 1;
        }
        false
    }

    /// Whether the traffic of `port` is filtered, so that a fresh connection
    /// to it has to be peeked at before anything else happens.
    pub fn needs_probe(&self, port: Port) -> (filtered: bool)
        ensures
            filtered == self@.is_filtered(port),
    {
        self.manager_position(port).is_some()
    }

    /// A copy of the filters of `port`, for the tasks that serve its
    /// connections; `None` if the port is not filtered.
    pub fn filters_of(&self, port: Port) -> (filters: Option<HttpFilterManager>)
        requires
            self.wf(),
        ensures
            filters.is_some() == self@.is_filtered(port),
            filters matches Some(manager) ==> manager@ == self@.managers[self@.manager_at(port)],
    {
        match self.manager_position(port) {
            Some(i) => {
                proof {
                    lemma_manager_unique(self@, port, i as int);
                }
                Some(self.filter_managers[i].clone())
            },
            None => None,
        }
    }

    /// Registers a layer that steals.
    pub fn new_client(&mut self, client_id: ClientId)
        requires
            old(self).wf(),
        ensures
            final(self).wf(),
            final(self)@ == old(self)@.new_client(client_id),
    {
        proof {
            lemma_new_client_keeps_inv(self@, client_id);
        }
        if !self.is_client(client_id) {
            self.clients.push(client_id);
        }
    }

    /// The actions that put `message` on the sink of `client_id`: one, or none
    /// if the client has no sink.
    pub fn send_message_to_single_client(&self, client_id: ClientId, message: DaemonTcp) -> (actions:
        Vec<StealerAction>)
        ensures
            actions@ == self@.send_to(client_id, message),
    {
        let mut actions: Vec<StealerAction> = Vec::new();
        if self.is_client(client_id) {
            actions.push(StealerAction::Send(client_id, message));
            assert(actions@ =~= seq![StealerAction::Send(client_id, message)]);
        }
        actions
    }

    /// What has to happen when `client_id` asks `requested` of `port`.
    pub fn plan(&self, client_id: ClientId, port: Port, requested: &Requested) -> (plan:
        SubscribePlan)
        ensures
            plan == self@.plan(client_id, port, requested@),
    {
        match requested {
            Requested::BadFilter => SubscribePlan::BadFilter,
            Requested::FullPort => {
                if self.port_subscriptions.has_other_subscriber(port, client_id) {
                    SubscribePlan::Conflict
                } else if self.port_subscriptions.is_subscribed(client_id, port) {
                    SubscribePlan::Update
                } else {
                    SubscribePlan::Install { init_guard: !self.guard }
                }
            },
            Requested::Filtered(_) => {
                if self.port_subscriptions.has_other_subscriber(port, client_id)
                    && !self.needs_probe(port) {
                    SubscribePlan::Conflict
                } else if self.port_subscriptions.is_subscribed(client_id, port) {
                    SubscribePlan::Update
                } else if self.port_subscriptions.has_subscriber(port) {
                    SubscribePlan::Join
                } else {
                    SubscribePlan::Install { init_guard: !self.guard }
                }
            },
        }
    }

    /// What has to happen for a subscription message.
    pub fn plan_subscribe(&self, client_id: ClientId, steal: &PortSteal) -> (plan: SubscribePlan)
        ensures
            plan == self@.plan(client_id, steal@.port(), requested_of(steal@)),
    {
        let (port, requested) = Requested::compile(steal);
        self.plan(client_id, port, &requested)
    }

    fn apply_request(&mut self, client_id: ClientId, port: Port, requested: Requested)
        requires
            old(self)@.subscriptions_inv(),
        ensures
            final(self)@ == (StealerView {
                managers: old(self)@.managers_with(client_id, port, requested@),
                ..old(self)@
            }),
    {
        let ghost before = self@;
        match requested {
            Requested::BadFilter => {},
            Requested::FullPort => {
                match self.manager_position(port) {
                    Some(i) => {
                        proof {
                            lemma_manager_unique(before, port, i as int);
                        }
                        let _ = self.filter_managers.remove(i);
                        assert(self@.managers =~= before.managers.remove(i as int));
                    },
                    None => {},
                }
            },
            Requested::Filtered(filter) => {
                match self.manager_position(port) {
                    Some(i) => {
                        proof {
                            lemma_manager_unique(before, port, i as int);
                        }
                        let ghost pattern = filter@;
                        let mut manager = self.filter_managers.remove(i);
                        let ghost filters = manager@.filters;
                        let replaced = manager.new_client(client_id, filter);
                        proof {
                            match replaced {
                                Some(previous) => {
                                    let k = choose|k: int|
                                        0 <= k < filters.len() && #[trigger] filters[k] == (
                                            client_id,
                                            previous@,
                                        ) && manager@.filters == filters.update(
                                            k,
                                            (client_id, pattern),
                                        );
                                    lemma_client_place(filters, client_id, k);
                                },
                                None => {},
                            }
                            assert(manager@.filters == with_client(filters, client_id, pattern));
                        }
                        self.filter_managers.insert(i, manager);
                        assert(self@.managers =~= before.managers.update(
                            i as int,
                            HttpFilterManagerView {
                                port,
                                filters: with_client(filters, client_id, pattern),
                            },
                        ));
                    },
                    None => {
                        let ghost pattern = filter@;
                        self.filter_managers.push(HttpFilterManager::new(port, client_id, filter));
                        assert(self@.managers =~= before.managers.push(
                            HttpFilterManagerView { port, filters: seq![(client_id, pattern)] },
                        ));
                    },
                }
            },
        }
    }

    /// Handles a subscription whose filter is compiled.
    ///
    /// `rule_installed` says whether the redirect rule that [`Self::plan`] asks
    /// for is in place. Where the plan asks for none it does not count. Where
    /// the rule could not be installed, the subscription is not recorded and
    /// the stealer cannot go on.
    pub fn subscribe(
        &mut self,
        client_id: ClientId,
        port: Port,
        requested: Requested,
        rule_installed: bool,
    ) -> (outcome: Result<Vec<StealerAction>, AgentError>)
        requires
            old(self).wf(),
        ensures
            final(self).wf(),
            final(self)@ == old(self)@.subscribe(client_id, port, requested@, rule_installed),
            match old(self)@.subscribe_reply(client_id, port, requested@, rule_installed) {
                Some(reply) => outcome matches Ok(actions) && actions@ == old(self)@.send_to(
                    client_id,
                    DaemonTcp::SubscribeResult(reply),
                ),
                None => outcome == Err::<Vec<StealerAction>, AgentError>(
                    AgentError::RedirectFailed(port),
                ),
            },
    {
        let ghost before = self@;
        proof {
            lemma_subscribe_keeps_inv(before, client_id, port, requested@, rule_installed);
        }
        let plan = self.plan(client_id, port, &requested);
        let reply = match plan {
            SubscribePlan::BadFilter => Err(ResponseError::BadHttpFilterRegex(port)),
            SubscribePlan::Conflict => Err(ResponseError::PortAlreadyStolen(port)),
            SubscribePlan::Update => {
                self.apply_request(client_id, port, requested);
                Ok(port)
            },
            SubscribePlan::Join => {
                self.apply_request(client_id, port, requested);
                self.port_subscriptions.subscribe(client_id, port);
                Ok(port)
            },
            SubscribePlan::Install { init_guard } => {
                if !rule_installed {
                    return Err(AgentError::RedirectFailed(port));
                }
                self.apply_request(client_id, port, requested);
                self.port_subscriptions.subscribe(client_id, port);
                if !self.guard {
                    self.iptables = SafeIpTables::new();
                    self.guard = true;
                }
                let changed = self.iptables.add_redirect(port, self.listener_port);
                proof {
                    if before.rules.is_some() {
                        assert(!before.has_subscriber(port)) by {
                            if before.has_subscriber(port) {
                                let c = choose|c: ClientId| before.subscriptions.contains((port, c));
                                if c != client_id {
                                    assert(before.has_other_subscriber(port, client_id));
                                    if before.is_filtered(port) {
                                        assert(requested@ is FullPort);
                                    }
                                }
                            }
                        }
                        assert(!before.rules.unwrap().contains((port, before.listener_port)));
                    }
                    assert(changed);
                    assert(self@.rules.unwrap() =~= match before.rules {
                        Some(rules) => rules.push(before.rule_for(port)),
                        None => seq![before.rule_for(port)],
                    });
                }
                Ok(port)
            },
        };
        Ok(self.send_message_to_single_client(client_id, DaemonTcp::SubscribeResult(reply)))
    }

    /// Handles a subscription message: see [`Self::subscribe`].
    pub fn port_subscribe(&mut self, client_id: ClientId, steal: PortSteal, rule_installed: bool) -> (outcome:
        Result<Vec<StealerAction>, AgentError>)
        requires
            old(self).wf(),
        ensures
            final(self).wf(),
            final(self)@ == old(self)@.subscribe(
                client_id,
                steal@.port(),
                requested_of(steal@),
                rule_installed,
            ),
            match old(self)@.subscribe_reply(
                client_id,
                steal@.port(),
                requested_of(steal@),
                rule_installed,
            ) {
                Some(reply) => outcome matches Ok(actions) && actions@ == old(self)@.send_to(
                    client_id,
                    DaemonTcp::SubscribeResult(reply),
                ),
                None => outcome == Err::<Vec<StealerAction>, AgentError>(
                    AgentError::RedirectFailed(steal@.port()),
                ),
            },
    {
        let (port, requested) = Requested::compile(&steal);
        self.subscribe(client_id, port, requested, rule_installed)
    }

    /// Handles the end of a subscription: the rule of the port goes with its
    /// last subscriber, and the chain with the last subscription.
    pub fn port_unsubscribe(&mut self, client_id: ClientId, port: Port) -> (actions: Vec<
        StealerAction,
    >)
        requires
            old(self).wf(),
        ensures
            final(self).wf(),
            final(self)@ == old(self)@.unsubscribe(client_id, port),
            actions@ == old(self)@.unsubscribe_actions(client_id, port),
    {
        let ghost before = self@;
        proof {
            lemma_unsubscribe_keeps_inv(before, client_id, port);
        }
        let mut actions: Vec<StealerAction> = Vec::new();
        match self.manager_position(port) {
            Some(i) => {
                proof {
                    lemma_manager_unique(before, port, i as int);
                }
                let mut manager = self.filter_managers.remove(i);
                let ghost filters = manager@.filters;
                let removed = manager.remove_client(client_id);
                proof {
                    match removed {
                        Some(entry) => {
                            let k = choose|k: int|
                                0 <= k < filters.len() && #[trigger] filters[k] == (
                                    client_id,
                                    entry.1@,
                                ) && manager@.filters == filters.remove(k);
                            lemma_client_place(filters, client_id, k);
                        },
                        None => {},
                    }
                    assert(manager@.filters == without_client(filters, client_id));
                }
                if !manager.is_empty() {
                    self.filter_managers.insert(i, manager);
                    assert(self@.managers =~= before.managers.update(
                        i as int,
                        HttpFilterManagerView { port, filters: without_client(filters, client_id) },
                    ));
                } else {
                    assert(self@.managers =~= before.managers.remove(i as int));
                }
            },
            None => {},
        }
        self.port_subscriptions.unsubscribe(client_id, port);
        if self.guard {
            let still_stolen = self.port_subscriptions.has_subscriber(port);
            if !still_stolen {
                let changed = self.iptables.remove_redirect(port, self.listener_port);
                if changed {
                    actions.push(StealerAction::RemoveRedirect(port, self.listener_port));
                }
            }
            if self.port_subscriptions.is_empty() {
                self.guard = false;
                self.iptables = SafeIpTables::new();
                actions.push(StealerAction::DropIpTables);
            }
        }
        proof {
            assert(actions@ =~= before.unsubscribe_actions(client_id, port));
        }
        actions
    }

    /// Handles the departure of a client: its subscriptions are given up, its
    /// sink is dropped and its connections are closed.
    pub fn close_client(&mut self, client_id: ClientId) -> (actions: Vec<StealerAction>)
        requires
            old(self).wf(),
        ensures
            final(self).wf(),
            final(self)@ == old(self)@.close_client(client_id),
            actions@ == old(self)@.close_client_actions(client_id),
    {
        let ghost before = self@;
        proof {
            lemma_close_client(before, client_id);
        }
        let ports = self.port_subscriptions.get_client_topics(client_id);
        let mut actions: Vec<StealerAction> = Vec::new();
        let mut i: usize = 0;
        assert(ports@.skip(0) =~= ports@);
        while i < ports.len()
            invariant
                self.wf(),
                i <= ports@.len(),
                before.unsubscribe_all(client_id, ports@) == self@.unsubscribe_all(
                    client_id,
                    ports@.skip(i as int),
                ),
                before.unsubscribe_all_actions(client_id, ports@) == actions@
                    + self@.unsubscribe_all_actions(client_id, ports@.skip(i as int)),
            decreases ports@.len() - i,
        {
            let ghost so_far = actions@;
            let ghost now = self@;
            let mut more = self.port_unsubscribe(client_id, ports[i]);
            let ghost fresh = more@;
            actions.append(&mut more);
            proof {
                assert(ports@.skip(i as int).first() == ports@[i as int]);
                assert(ports@.skip(i as int).drop_first() =~= ports@.skip(i + 1));
                assert(actions@ =~= so_far + fresh);
                assert(so_far + (fresh + self@.unsubscribe_all_actions(
                    client_id,
                    ports@.skip(i + 1),
                )) =~= (so_far + fresh) + self@.unsubscribe_all_actions(
                    client_id,
                    ports@.skip(i + 1),
                ));
            }
            i += 1;
        }
        proof {
            assert(ports@.skip(i as int) =~= Seq::<Port>::empty());
            assert(actions@ =~= before.unsubscribe_all_actions(client_id, ports@));
        }
        let ghost middle = self@;
        let ghost first_actions = actions@;
        self.clients = without(&self.clients, client_id);
        actions.push(StealerAction::DropClient(client_id));
        close_owned(&mut self.connections, client_id, &mut actions);
        proof {
            assert(self@ == (StealerView {
                clients: middle.clients.filter(not_client(client_id)),
                connections: middle.connections.filter(not_owned_by(client_id)),
                ..middle
            }));
            crate::stealer_laws::lemma_unsubscribe_all(before, client_id, ports@);
            assert(middle.connections == before.connections);
            assert(actions@ =~= first_actions + seq![StealerAction::DropClient(client_id)]
                + before.connections.filter(owned_by(client_id)).map_values(closing()));
            assert(actions@ =~= before.close_client_actions(client_id));
        }
        actions
    }

    fn remove_connection(&mut self, i: usize)
        requires
            old(self).wf(),
            i < old(self)@.connections.len(),
        ensures
            final(self).wf(),
            final(self)@ == old(self)@.drop_connection(old(self)@.connections[i as int].connection_id),
    {
        let ghost before = self@;
        let ghost connection_id = before.connections[i as int].connection_id;
        proof {
            assert(before.holds(connection_id, i as int));
            lemma_connection_unique(before, connection_id, i as int);
            lemma_drop_connection(before, connection_id);
        }
        let _ = self.connections.remove(i);
        assert(self@.connections =~= before.connections.remove(i as int));
    }

    /// Handles a connection that the layer gives up: both halves are dropped.
    pub fn connection_unsubscribe(&mut self, connection_id: ConnectionId) -> (actions: Vec<
        StealerAction,
    >)
        requires
            old(self).wf(),
        ensures
            final(self).wf(),
            final(self)@ == old(self)@.drop_connection(connection_id),
            actions@ == old(self)@.connection_unsubscribe_actions(connection_id),
    {
        let mut actions: Vec<StealerAction> = Vec::new();
        match self.connection_position(connection_id) {
            Some(i) => {
                proof {
                    lemma_connection_unique(self@, connection_id, i as int);
                }
                self.remove_connection(i);
                actions.push(StealerAction::CloseConnection(connection_id));
                assert(actions@ =~= seq![StealerAction::CloseConnection(connection_id)]);
            },
            None => {},
        }
        actions
    }

    /// Handles the end of the task that served a connection.
    pub fn connection_closed(&mut self, connection_id: ConnectionId)
        requires
            old(self).wf(),
        ensures
            final(self).wf(),
            final(self)@ == old(self)@.drop_connection(connection_id),
    {
        match self.connection_position(connection_id) {
            Some(i) => {
                proof {
                    lemma_connection_unique(self@, connection_id, i as int);
                }
                self.remove_connection(i);
            },
            None => {},
        }
    }

    /// Handles a connection accepted on the stealer's listener.
    ///
    /// `destination` is where the connection was headed before it was
    /// redirected, `source` where it comes from, and `peeked` what could be
    /// peeked from it; only a connection to a filtered port is peeked
    /// ([`Self::needs_probe`]).
    ///
    /// The connection is turned down, and nothing changes, if nobody is
    /// subscribed to its port, if nothing could be peeked from a connection
    /// that is to be filtered, or if the ids have run out. A raw connection
    /// goes to the oldest subscriber of its port.
    pub fn incoming_connection(
        &mut self,
        destination: SocketAddress,
        source: SocketAddress,
        peeked: &[u8],
    ) -> (outcome: Result<Vec<StealerAction>, AgentError>)
        requires
            old(self).wf(),
        ensures
            final(self).wf(),
            final(self)@ == old(self)@.incoming_connection(destination, peeked@),
            match old(self)@.refusal(destination, peeked@) {
                Some(error) => outcome == Err::<Vec<StealerAction>, AgentError>(error),
                None => outcome matches Ok(actions) && actions@ == old(
                    self,
                )@.incoming_connection_actions(destination, source, peeked@),
            },
    {
        let ghost before = self@;
        proof {
            lemma_incoming_connection(before, destination, peeked@);
        }
        let port = destination.port;
        let first = self.port_subscriptions.first_subscriber(port);
        let recipient = match first {
            Some(recipient) => recipient,
            None => {
                return Err(AgentError::UnexpectedConnection(port));
            },
        };
        let manager = self.manager_position(port);
        let filtered = manager.is_some();
        if filtered && peeked.len() == 0 {
            return Err(AgentError::HttpTraffic(HttpTrafficError::Empty));
        }
        if self.index_allocator.is_exhausted() {
            return Err(AgentError::ConnectionIdsExhausted);
        }
        if !filtered && !self.is_client(recipient) {
            return Ok(self.close_client(recipient));
        }
        let connection_id = match self.index_allocator.next_index() {
            Some(connection_id) => connection_id,
            None => {
                return Err(AgentError::ConnectionIdsExhausted);
            },
        };
        let mut actions: Vec<StealerAction> = Vec::new();
        if let Some(i) = manager {
            let stolen = StolenConnection::new(destination, connection_id);
            let filter = match self.filter_managers[i].new_connection(stolen, peeked) {
                Ok(filter) => filter,
                Err(error) => {
                    return Err(AgentError::HttpTraffic(error));
                },
            };
            let disposition = match filter {
                HttpFilter::Serve(_) => Disposition::HttpFiltered,
                HttpFilter::PassThrough(_) => Disposition::PassThrough,
            };
            self.connections.push(
                ConnectionRecord {
                    connection_id,
                    client_id: None,
                    original_destination: destination,
                    disposition,
                    responses: ResponseQueue::new(),
                },
            );
            actions.push(StealerAction::StartFilter(filter));
        } else {
            self.connections.push(
                ConnectionRecord {
                    connection_id,
                    client_id: Some(recipient),
                    original_destination: destination,
                    disposition: Disposition::Raw,
                    responses: ResponseQueue::new(),
                },
            );
            actions.push(StealerAction::Register(connection_id));
            actions.push(
                StealerAction::Send(
                    recipient,
                    DaemonTcp::NewConnection(
                        NewTcpConnection {
                            connection_id,
                            address: source.ip,
                            destination_port: port,
                            source_port: source.port,
                        },
                    ),
                ),
            );
        }
        proof {
            assert(self@.connections =~= before.connections.push(
                before.fresh_connection(connection_id, destination, peeked@),
            ));
            assert(actions@ =~= before.incoming_connection_actions(destination, source, peeked@));
        }
        Ok(actions)
    }

    fn reader_of(&self, i: usize) -> (reader: Option<ClientId>)
        requires
            self.wf(),
            i < self@.connections.len(),
        ensures
            reader == self@.reader_of(self@.connections[i as int].connection_id),
    {
        proof {
            let connection_id = self@.connections[i as int].connection_id;
            assert(self@.holds(connection_id, i as int));
            lemma_connection_unique(self@, connection_id, i as int);
        }
        match self.connections[i].client_id {
            Some(client) => if self.is_client(client) {
                Some(client)
            } else {
                None
            },
            None => None,
        }
    }

    /// Handles what was read from a raw connection.
    ///
    /// Data goes to the client that owns the connection. At the end of the
    /// stream, and when reading failed, the client is told that the connection
    /// is over, and the connection is closed. A connection whose client cannot
    /// be found is closed; what was read from a connection that is not known
    /// is dropped.
    pub fn forward_incoming_tcp_data(&mut self, connection_id: ConnectionId, incoming: Incoming) -> (actions:
        Vec<StealerAction>)
        requires
            old(self).wf(),
        ensures
            final(self).wf(),
            final(self)@ == old(self)@.forward_incoming(connection_id, incoming),
            actions@ == old(self)@.forward_incoming_actions(connection_id, incoming),
    {
        let mut actions: Vec<StealerAction> = Vec::new();
        let i = match self.connection_position(connection_id) {
            Some(i) => i,
            None => {
                return actions;
            },
        };
        proof {
            lemma_connection_unique(self@, connection_id, i as int);
        }
        match self.reader_of(i) {
            None => {
                self.remove_connection(i);
                actions.push(StealerAction::CloseConnection(connection_id));
                assert(actions@ =~= seq![StealerAction::CloseConnection(connection_id)]);
            },
            Some(client) => match incoming {
                Incoming::Data(bytes) => {
                    actions.push(
                        StealerAction::Send(client, DaemonTcp::Data(TcpData { connection_id, bytes })),
                    );
                    assert(actions@ =~= seq![
                        StealerAction::Send(
                            client,
                            DaemonTcp::Data(TcpData { connection_id, bytes }),
                        ),
                    ]);
                },
                _ => {
                    self.remove_connection(i);
                    actions.push(
                        StealerAction::Send(client, DaemonTcp::Close(TcpClose { connection_id })),
                    );
                    actions.push(StealerAction::CloseConnection(connection_id));
                    assert(actions@ =~= seq![
                        StealerAction::Send(client, DaemonTcp::Close(TcpClose { connection_id })),
                        StealerAction::CloseConnection(connection_id),
                    ]);
                },
            },
        }
        actions
    }

    /// Handles bytes that the local application wrote: they are written to the
    /// connection, or dropped if there is no such raw connection.
    pub fn forward_data(&self, tcp_data: TcpData) -> (actions: Vec<StealerAction>)
        requires
            self.wf(),
        ensures
            actions@ == self@.forward_data_actions(tcp_data),
    {
        let mut actions: Vec<StealerAction> = Vec::new();
        match self.connection_position(tcp_data.connection_id) {
            Some(i) => {
                proof {
                    lemma_connection_unique(self@, tcp_data.connection_id, i as int);
                }
                match self.connections[i].disposition {
                    Disposition::Raw => {
                        let TcpData { connection_id, bytes } = tcp_data;
                        actions.push(StealerAction::Write(connection_id, bytes));
                        assert(actions@ =~= seq![StealerAction::Write(connection_id, bytes)]);
                    },
                    _ => {},
                }
            },
            None => {},
        }
        actions
    }

    /// Handles a request that the HTTP task of a connection matched: the
    /// request goes to its client, and its response is awaited.
    pub fn matched_request(&mut self, request: MatchedHttpRequest) -> (actions: Vec<StealerAction>)
        requires
            old(self).wf(),
        ensures
            final(self).wf(),
            final(self)@ == old(self)@.matched_request(request),
            actions@ == old(self)@.matched_request_actions(request),
    {
        let ghost before = self@;
        proof {
            lemma_matched_request_keeps_inv(before, request);
        }
        let mut actions: Vec<StealerAction> = Vec::new();
        let i = match self.connection_position(request.connection_id) {
            Some(i) => i,
            None => {
                return actions;
            },
        };
        proof {
            lemma_connection_unique(before, request.connection_id, i as int);
        }
        match self.connections[i].disposition {
            Disposition::HttpFiltered => {},
            _ => {
                return actions;
            },
        }
        if !self.is_client(request.client_id) {
            return actions;
        }
        let mut record = self.connections.remove(i);
        let opened = record.responses.expect(request.request_id);
        self.connections.insert(i, record);
        proof {
            if opened {
                assert(self@.connections =~= before.connections.update(
                    i as int,
                    ConnectionView {
                        responses: before.connections[i as int].responses.expect(request.request_id),
                        ..before.connections[i as int]
                    },
                ));
            } else {
                assert(self@.connections =~= before.connections);
            }
        }
        if opened {
            let MatchedHttpRequest { port, connection_id, client_id, request_id, request } = request;
            actions.push(
                StealerAction::Send(
                    client_id,
                    DaemonTcp::HttpRequest(HttpRequest { request, connection_id, request_id, port }),
                ),
            );
            assert(actions@ =~= seq![
                StealerAction::Send(
                    client_id,
                    DaemonTcp::HttpRequest(HttpRequest { request, connection_id, request_id, port }),
                ),
            ]);
        }
        actions
    }

    /// Handles a response from the layer: it is handed to the HTTP task of its
    /// connection once the responses to all earlier requests were, together
    /// with the later responses that waited for it.
    pub fn http_response(&mut self, response: HttpResponse) -> (actions: Vec<StealerAction>)
        requires
            old(self).wf(),
        ensures
            final(self).wf(),
            final(self)@ == old(self)@.http_response(response),
            actions@ == old(self)@.http_response_actions(response),
    {
        let ghost before = self@;
        proof {
            lemma_http_response_keeps_inv(before, response);
        }
        let mut actions: Vec<StealerAction> = Vec::new();
        let i = match self.connection_position(response.connection_id) {
            Some(i) => i,
            None => {
                return actions;
            },
        };
        proof {
            lemma_connection_unique(before, response.connection_id, i as int);
        }
        match self.connections[i].disposition {
            Disposition::HttpFiltered => {},
            _ => {
                return actions;
            },
        }
        let mut record = self.connections.remove(i);
        let mut released = record.responses.arrive(response);
        self.connections.insert(i, record);
        proof {
            assert(self@.connections =~= before.connections.update(
                i as int,
                ConnectionView {
                    responses: before.connections[i as int].responses.arrive(response),
                    ..before.connections[i as int]
                },
            ));
        }
        let ghost all = released@;
        let ghost mut done: int = 0;
        assert(all.skip(0) =~= all);
        assert(all.take(0).map_values(responding()) =~= Seq::<StealerAction>::empty());
        while released.len() > 0
            invariant
                0 <= done <= all.len(),
                released@ == all.skip(done),
                actions@ == all.take(done).map_values(responding()),
            decreases released@.len(),
        {
            let next = released.remove(0);
            actions.push(StealerAction::Respond(next));
            proof {
                assert(all.skip(done)[0] == all[done]);
                assert(released@ =~= all.skip(done + 1));
                assert(all.take(done + 1) =~= all.take(done).push(all[done]));
                assert(actions@ =~= all.take(done + 1).map_values(responding()));
                done = done + 1;
            }
        }
        proof {
            assert(all.take(done) =~= all);
        }
        actions
    }

    /// Handles a command. `rule_installed` answers the plan for a
    /// subscription, and counts for nothing else.
    pub fn handle_command(&mut self, command: ClientCommand<StealerCommand>, rule_installed: bool) -> (outcome:
        Result<Vec<StealerAction>, AgentError>)
        requires
            old(self).wf(),
        ensures
            final(self).wf(),
            final(self)@ == old(self)@.handle_command(
                command.client_id,
                command.command,
                rule_installed,
            ),
            match old(self)@.handle_command_actions(
                command.client_id,
                command.command,
                rule_installed,
            ) {
                Ok(expected) => outcome matches Ok(actions) && actions@ == expected,
                Err(error) => outcome == Err::<Vec<StealerAction>, AgentError>(error),
            },
    {
        let ClientCommand { client_id, command } = command;
        match command {
            StealerCommand::NewClient => {
                self.new_client(client_id);
                Ok(Vec::new())
            },
            StealerCommand::ConnectionUnsubscribe(connection_id) => Ok(
                self.connection_unsubscribe(connection_id),
            ),
            StealerCommand::PortSubscribe(steal) => self.port_subscribe(
                client_id,
                steal,
                rule_installed,
            ),
            StealerCommand::PortUnsubscribe(port) => Ok(self.port_unsubscribe(client_id, port)),
            StealerCommand::ClientClose => Ok(self.close_client(client_id)),
            StealerCommand::ResponseData(tcp_data) => Ok(self.forward_data(tcp_data)),
            StealerCommand::HttpResponse(response) => Ok(self.http_response(response)),
        }
    }

    /// One turn of the worker's loop: handles an event and says what is to be
    /// done and whether the loop goes on.
    ///
    /// The loop ends when the command channel is closed, when accepting fails
    /// and when the worker is cancelled. It fails only where a redirect rule
    /// could not be installed. A connection that is turned down is dropped
    /// and the loop goes on. A client whose sink does not take a message is
    /// treated as gone, and a connection that cannot be written to as over.
    pub fn start(&mut self, event: StealerEvent) -> (outcome: Result<Step, AgentError>)
        requires
            old(self).wf(),
        ensures
            final(self).wf(),
            final(self)@ == old(self)@.handle_event(event),
            match old(self)@.handle_event_actions(event) {
                Ok(expected) => outcome matches Ok(step) && step.actions@ == expected
                    && step.keep_running == StealerView::keeps_running(event),
                Err(error) => outcome == Err::<Step, AgentError>(error),
            },
    {
        match event {
            StealerEvent::Command { command: Some(command), rule_installed } => {
                match self.handle_command(command, rule_installed) {
                    Ok(actions) => Ok(Step { actions, keep_running: true }),
                    Err(error) => Err(error),
                }
            },
            StealerEvent::Command { command: None, rule_installed } => Ok(
                Step { actions: Vec::new(), keep_running: false },
            ),
            StealerEvent::Accepted { destination, source, peeked } => {
                let ghost before = self@;
                match self.incoming_connection(destination, source, peeked.as_slice()) {
                    Ok(actions) => Ok(Step { actions, keep_running: true }),
                    Err(_) => {
                        assert(before.incoming_connection_actions(destination, source, peeked@)
                            =~= Seq::<StealerAction>::empty());
                        Ok(Step { actions: Vec::new(), keep_running: true })
                    },
                }
            },
            StealerEvent::AcceptFailed => Ok(Step { actions: Vec::new(), keep_running: false }),
            StealerEvent::Read(connection_id, incoming) => Ok(
                Step {
                    actions: self.forward_incoming_tcp_data(connection_id, incoming),
                    keep_running: true,
                },
            ),
            StealerEvent::Matched(request) => Ok(
                Step { actions: self.matched_request(request), keep_running: true },
            ),
            StealerEvent::ConnectionClosed(connection_id) => {
                self.connection_closed(connection_id);
                Ok(Step { actions: Vec::new(), keep_running: true })
            },
            StealerEvent::SendFailed(client_id) => Ok(
                Step { actions: self.close_client(client_id), keep_running: true },
            ),
            StealerEvent::WriteFailed(connection_id) => Ok(
                Step {
                    actions: self.forward_incoming_tcp_data(connection_id, Incoming::Error),
                    keep_running: true,
                },
            ),
            StealerEvent::Cancelled => Ok(Step { actions: Vec::new(), keep_running: false }),
        }
    }
}

/// Drops the records of the connections that `client_id` owns and lists the
/// actions that close them, oldest connection first.
fn close_owned(records: &mut Vec<ConnectionRecord>, client_id: ClientId, actions: &mut Vec<StealerAction>)
    ensures
        connections_view(final(records)@) == connections_view(old(records)@).filter(
            not_owned_by(client_id),
        ),
        final(actions)@ == old(actions)@ + connections_view(old(records)@).filter(
            owned_by(client_id),
        ).map_values(closing()),
{
    let ghost all = connections_view(records@);
    let ghost first = actions@;
    let ghost keep = not_owned_by(client_id);
    let ghost dropped = owned_by(client_id);
    let mut i: usize = 0;
    let ghost mut seen: int = 0;
    proof {
        assert(all.take(0) =~= Seq::<ConnectionView>::empty());
        assert(all.skip(0) =~= all);
        assert(connections_view(records@).take(0) =~= Seq::<ConnectionView>::empty());
        assert(actions@ =~= first + all.take(0).filter(dropped).map_values(closing()));
    }
    while i < records.len()
        invariant
            keep == not_owned_by(client_id),
            dropped == owned_by(client_id),
            i <= records@.len(),
            0 <= seen <= all.len(),
            connections_view(records@).take(i as int) == all.take(seen).filter(keep),
            connections_view(records@).skip(i as int) == all.skip(seen),
            actions@ == first + all.take(seen).filter(dropped).map_values(closing()),
        decreases records@.len() - i,
    {
        let ghost before = connections_view(records@);
        let ghost so_far = actions@;
        proof {
            assert(before.skip(i as int)[0] == all.skip(seen)[0]);
            assert(before.skip(i as int).len() == all.skip(seen).len());
            assert(all.take(seen + 1) =~= all.take(seen).push(all[seen]));
            all.take(seen).lemma_filter_push(all[seen], keep);
            all.take(seen).lemma_filter_push(all[seen], dropped);
            all.take(seen).filter(dropped).lemma_push_map_commute(closing(), all[seen]);
            assert(before[i as int] == all[seen]);
        }
        let owned = match records[i].client_id {
            Some(owner) => owner == client_id,
            None => false,
        };
        if owned {
            let record = records.remove(i);
            actions.push(StealerAction::CloseConnection(record.connection_id));
            proof {
                let after = connections_view(records@);
                assert(after =~= before.remove(i as int));
                assert(after.take(i as int) =~= before.take(i as int));
                assert(after.skip(i as int) =~= before.skip(i as int).skip(1));
                assert(all.skip(seen).skip(1) =~= all.skip(seen + 1));
                assert(actions@ =~= so_far.push(closing()(all[seen])));
                assert(actions@ =~= first + all.take(seen + 1).filter(dropped).map_values(closing()));
                seen = seen + 1;
            }
        } else {
            proof {
                assert(before.take(i + 1) =~= before.take(i as int).push(before[i as int]));
                assert(before.skip(i + 1) =~= before.skip(i as int).skip(1));
                assert(all.skip(seen).skip(1) =~= all.skip(seen + 1));
                seen = seen + 1;
            }
            i += 1;
        }
    }
    proof {
        assert(connections_view(records@).take(i as int) =~= connections_view(records@));
        assert(all.skip(seen).len() == 0);
        assert(all.take(seen) =~= all);
    }
}

/// The clients other than `client_id`, in their order.
fn without(clients: &Vec<ClientId>, client_id: ClientId) -> (kept: Vec<ClientId>)
    ensures
        kept@ == clients@.filter(not_client(client_id)),
{
    let ghost pick = not_client(client_id);
    let mut kept: Vec<ClientId> = Vec::new();
    let mut i: usize = 0;
    assert(clients@.take(0) =~= Seq::<ClientId>::empty());
    while i < clients.len()
        invariant
            i <= clients@.len(),
            pick == not_client(client_id),
            kept@ == clients@.take(i as int).filter(pick),
        decreases clients@.len() - i,
    {
        let client = clients[i];
        proof {
            clients@.take(i as int).lemma_filter_push(client, pick);
            assert(clients@.take(i + 1) =~= clients@.take(i as int).push(client));
        }
        if client != client_id {
            kept.push(client);
        }
        i += 1;
    }
    assert(clients@.take(i as int) =~= clients@);
    kept
}

} // verus!
