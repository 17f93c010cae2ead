//! The commands by which the agent drives the stealer, one handle per layer.

use crate::protocol::{ClientId, ConnectionId, HttpResponse, Port, PortSteal, TcpData};
use vstd::prelude::*;

verus! {

/// A command together with the client that gives it.
#[derive(Debug, PartialEq, Eq)]
pub struct ClientCommand<C> {
    /// Identifies the layer that sent the command.
    pub client_id: ClientId,
    /// What the stealer is asked to do.
    pub command: C,
}

/// What a layer can ask of the stealer.
#[derive(Debug, PartialEq, Eq)]
pub enum StealerCommand {
    /// The client has a sink for the stealer's messages from now on.
    NewClient,
    /// Steal the traffic of a port, wholly or by header filter.
    PortSubscribe(PortSteal),
    /// Stop stealing the traffic of a port.
    PortUnsubscribe(Port),
    /// The client goes away: give up its ports and close its connections.
    ClientClose,
    /// Drop an intercepted connection.
    ConnectionUnsubscribe(ConnectionId),
    /// Bytes from the local application for the peer of a connection.
    ResponseData(TcpData),
    /// The local application's answer to a stolen HTTP request.
    HttpResponse(HttpResponse),
}

/// The commands that every TCP worker understands.
pub trait TcpCommand: Sized {
    spec fn new_client_command() -> Self;

    spec fn port_subscribe_command(port: PortSteal) -> Self;

    spec fn port_unsubscribe_command(port: Port) -> Self;

    spec fn connection_unsubscribe_command(connection: ConnectionId) -> Self;

    spec fn client_close_command() -> Self;

    fn get_new_client_command() -> (command: Self)
        ensures
            command == Self::new_client_command(),
    ;

    fn get_port_subscribe_command(port: PortSteal) -> (command: Self)
        ensures
            command == Self::port_subscribe_command(port),
    ;

    fn get_port_unsubscribe_command(port: Port) -> (command: Self)
        ensures
            command == Self::port_unsubscribe_command(port),
    ;

    fn get_connection_unsubscribe_command(connection: ConnectionId) -> (command: Self)
        ensures
            command == Self::connection_unsubscribe_command(connection),
    ;

    fn get_client_close_command() -> (command: Self)
        ensures
            command == Self::client_close_command(),
    ;
}

impl TcpCommand for StealerCommand {
    open spec fn new_client_command() -> StealerCommand {
        StealerCommand::NewClient
    }

    open spec fn port_subscribe_command(port: PortSteal) -> StealerCommand {
        StealerCommand::PortSubscribe(port)
    }

    open spec fn port_unsubscribe_command(port: Port) -> StealerCommand {
        StealerCommand::PortUnsubscribe(port)
    }

    open spec fn connection_unsubscribe_command(connection: ConnectionId) -> StealerCommand {
        StealerCommand::ConnectionUnsubscribe(connection)
    }

    open spec fn client_close_command() -> StealerCommand {
        StealerCommand::ClientClose
    }

    fn get_new_client_command() -> (command: StealerCommand) {
        StealerCommand::NewClient
    }

    fn get_port_subscribe_command(port: PortSteal) -> (command: StealerCommand) {
        StealerCommand::PortSubscribe(port)
    }

    fn get_port_unsubscribe_command(port: Port) -> (command: StealerCommand) {
        StealerCommand::PortUnsubscribe(port)
    }

    fn get_connection_unsubscribe_command(connection: ConnectionId) -> (command: StealerCommand) {
        StealerCommand::ConnectionUnsubscribe(connection)
    }

    fn get_client_close_command() -> (command: StealerCommand) {
        StealerCommand::ClientClose
    }
}

/// The handle of one layer: it stamps every command with the layer's id.
///
/// The first command of a handle is the one that [`AgentTcpWorkerApi::new`]
/// returns, and the last is the one of [`AgentTcpWorkerApi::close_client`],
/// which is sent without waiting when the handle is dropped.
#[derive(Debug)]
pub struct AgentTcpWorkerApi<C: TcpCommand> {
    client_id: ClientId,
    marker: core::marker::PhantomData<C>,
}

/// The handle of a layer that steals.
pub type TcpStealerApi = AgentTcpWorkerApi<StealerCommand>;

impl<C: TcpCommand> AgentTcpWorkerApi<C> {
    /// The client that the handle speaks for.
    pub closed spec fn id(&self) -> ClientId {
        self.client_id
    }

    /// A handle for `client_id`, and the command that announces the client.
    pub fn new(client_id: ClientId) -> (made: (AgentTcpWorkerApi<C>, ClientCommand<C>))
        ensures
            made.0.id() == client_id,
            made.1 == (ClientCommand { client_id, command: C::new_client_command() }),
    {
        let api = AgentTcpWorkerApi { client_id, marker: core::marker::PhantomData };
        let first = api.new_client();
        (api, first)
    }

    /// The client that the handle speaks for.
    pub fn client_id(&self) -> (client_id: ClientId)
        ensures
            client_id == self.id(),
    {
        self.client_id
    }

    /// Stamps `command` with the client's id.
    pub fn send_command(&self, command: C) -> (stamped: ClientCommand<C>)
        ensures
            stamped == (ClientCommand { client_id: self.id(), command }),
    {
        ClientCommand { client_id: self.client_id, command }
    }

    /// Announces the client.
    pub fn new_client(&self) -> (stamped: ClientCommand<C>)
        ensures
            stamped == (ClientCommand { client_id: self.id(), command: C::new_client_command() }),
    {
        self.send_command(C::get_new_client_command())
    }

    /// Asks for the traffic of a port.
    pub fn port_subscribe(&self, port: PortSteal) -> (stamped: ClientCommand<C>)
        ensures
            stamped == (ClientCommand {
                client_id: self.id(),
                command: C::port_subscribe_command(port),
            }),
    {
        self.send_command(C::get_port_subscribe_command(port))
    }

    /// Gives up a port.
    pub fn port_unsubscribe(&self, port: Port) -> (stamped: ClientCommand<C>)
        ensures
            stamped == (ClientCommand {
                client_id: self.id(),
                command: C::port_unsubscribe_command(port),
            }),
    {
        self.send_command(C::get_port_unsubscribe_command(port))
    }

    /// Gives up a connection.
    pub fn connection_unsubscribe(&self, connection_id: ConnectionId) -> (stamped: ClientCommand<C>)
        ensures
            stamped == (ClientCommand {
                client_id: self.id(),
                command: C::connection_unsubscribe_command(connection_id),
            }),
    {
        self.send_command(C::get_connection_unsubscribe_command(connection_id))
    }

    /// Takes leave of the stealer.
    pub fn close_client(&self) -> (stamped: ClientCommand<C>)
        ensures
            stamped == (ClientCommand { client_id: self.id(), command: C::client_close_command() }),
    {
        self.send_command(C::get_client_close_command())
    }
}

impl AgentTcpWorkerApi<StealerCommand> {
    /// Hands on bytes that the local application wrote to a connection.
    pub fn client_data(&self, tcp_data: TcpData) -> (stamped: ClientCommand<StealerCommand>)
        ensures
            stamped == (ClientCommand {
                client_id: self.id(),
                command: StealerCommand::ResponseData(tcp_data),
            }),
    {
        self.send_command(StealerCommand::ResponseData(tcp_data))
    }

    /// Hands on the local application's answer to a stolen request.
    pub fn http_response(&self, response: HttpResponse) -> (stamped: ClientCommand<StealerCommand>)
        ensures
            stamped == (ClientCommand {
                client_id: self.id(),
                command: StealerCommand::HttpResponse(response),
            }),
    {
        self.send_command(StealerCommand::HttpResponse(response))
    }
}

} // verus!
