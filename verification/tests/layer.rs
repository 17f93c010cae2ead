use mirrord_steal::layer::{LayerAction, LayerError, Listen, TcpStealHandler};
use mirrord_steal::protocol::{
    ClientMessage, DaemonTcp, HttpHeader, HttpProtocol, HttpRequest, HttpResponse,
    InternalHttpRequest, InternalHttpResponse, IpAddress, LayerTcp, LayerTcpSteal,
    NewTcpConnection, PortSteal, ResponseError, TcpClose, TcpData,
};
use mirrord_steal::stealer_model::Incoming;

fn listen(requested_port: u16, mirror_port: u16) -> Listen {
    Listen { mirror_port, requested_port, ipv6: false }
}

fn connection(connection_id: u64, destination_port: u16) -> NewTcpConnection {
    NewTcpConnection {
        connection_id,
        address: IpAddress::V4(0x7f00_0001),
        destination_port,
        source_port: 31415,
    }
}

fn request(connection_id: u64, request_id: u64) -> HttpRequest {
    HttpRequest {
        request: InternalHttpRequest {
            method: "GET".to_string(),
            uri: "/".to_string(),
            headers: vec![HttpHeader { name: b"mirrord-test".to_vec(), value: b"Hello".to_vec() }],
            version: HttpProtocol::Http11,
            body: Vec::new(),
        },
        connection_id,
        request_id,
        port: 80,
    }
}

#[test]
fn listening_subscribes_to_the_port() {
    let mut handler = TcpStealHandler::new(None);
    assert_eq!(
        handler.handle_listen(listen(80, 8080)),
        Ok(vec![LayerAction::Emit(ClientMessage::TcpSteal(LayerTcpSteal::PortSubscribe(
            PortSteal::Steal(80)
        )))])
    );
    assert_eq!(handler.ports(), &vec![listen(80, 8080)]);
    assert_eq!(handler.handle_listen(listen(80, 9090)), Err(LayerError::ListenAlreadyExists));
    assert_eq!(handler.ports(), &vec![listen(80, 8080)]);
}

#[test]
fn listening_with_a_filter_subscribes_to_matching_requests() {
    let mut handler = TcpStealHandler::new(Some("Id: token.*".to_string()));
    assert_eq!(
        handler.handle_listen(listen(80, 8080)),
        Ok(vec![LayerAction::Emit(ClientMessage::TcpSteal(LayerTcpSteal::PortSubscribe(
            PortSteal::HttpFilterSteal(80, "Id: token.*".to_string())
        )))])
    );
}

#[test]
fn a_new_connection_dials_the_local_listener() {
    let mut handler = TcpStealHandler::new(None);
    handler.handle_listen(listen(80, 8080)).unwrap();
    handler.handle_listen(Listen { mirror_port: 8081, requested_port: 81, ipv6: true }).unwrap();
    assert_eq!(
        handler.handle_new_connection(connection(0, 80)),
        Ok(vec![LayerAction::Dial { connection_id: 0, port: 8080, ipv6: false }])
    );
    assert_eq!(
        handler.handle_new_connection(connection(1, 81)),
        Ok(vec![LayerAction::Dial { connection_id: 1, port: 8081, ipv6: true }])
    );
    assert_eq!(
        handler.handle_new_connection(connection(2, 82)),
        Err(LayerError::PortNotFound(82))
    );
}

#[test]
fn data_is_written_to_open_connections_only() {
    let mut handler = TcpStealHandler::new(None);
    handler.handle_listen(listen(80, 8080)).unwrap();
    handler.handle_new_connection(connection(0, 80)).unwrap();
    assert_eq!(
        handler.handle_new_data(TcpData { connection_id: 0, bytes: b"GET /".to_vec() }),
        Ok(vec![LayerAction::Write(0, b"GET /".to_vec())])
    );
    assert_eq!(
        handler.handle_new_data(TcpData { connection_id: 5, bytes: b"GET /".to_vec() }),
        Err(LayerError::NoConnectionId(5))
    );
    assert_eq!(
        handler.handle_close(TcpClose { connection_id: 0 }),
        vec![LayerAction::DropConnection(0)]
    );
    assert_eq!(
        handler.handle_new_data(TcpData { connection_id: 0, bytes: b"late".to_vec() }),
        Err(LayerError::NoConnectionId(0))
    );
}

#[test]
fn a_failed_write_gives_the_connection_up() {
    let mut handler = TcpStealHandler::new(None);
    handler.handle_listen(listen(80, 8080)).unwrap();
    handler.handle_new_connection(connection(3, 80)).unwrap();
    assert_eq!(
        handler.close_connection(3, true),
        vec![
            LayerAction::DropConnection(3),
            LayerAction::Emit(ClientMessage::TcpSteal(LayerTcpSteal::ConnectionUnsubscribe(3))),
        ]
    );
    assert_eq!(
        handler.handle_new_data(TcpData { connection_id: 3, bytes: Vec::new() }),
        Err(LayerError::NoConnectionId(3))
    );
}

#[test]
fn the_first_request_sets_up_the_http_connection() {
    let mut handler = TcpStealHandler::new(None);
    assert_eq!(
        handler.handle_http_request(request(0, 1)),
        vec![
            LayerAction::ConnectHttp { connection_id: 0, port: 80 },
            LayerAction::ForwardRequest(request(0, 1)),
        ]
    );
    assert_eq!(
        handler.handle_http_request(request(0, 2)),
        vec![LayerAction::ForwardRequest(request(0, 2))]
    );
    assert_eq!(
        handler.handle_http_request(request(1, 1)),
        vec![
            LayerAction::ConnectHttp { connection_id: 1, port: 80 },
            LayerAction::ForwardRequest(request(1, 1)),
        ]
    );
    handler.handle_close(TcpClose { connection_id: 0 });
    assert_eq!(handler.handle_http_request(request(0, 3)).len(), 2);
}

#[test]
fn responses_and_reads_go_to_the_agent() {
    let handler = TcpStealHandler::new(None);
    let response = HttpResponse {
        request_id: 1,
        connection_id: 0,
        port: 80,
        response: InternalHttpResponse {
            status: 200,
            version: HttpProtocol::Http11,
            headers: Vec::new(),
            body: b"ok".to_vec(),
        },
    };
    assert_eq!(
        handler.handle_http_response(response.clone()),
        ClientMessage::TcpSteal(LayerTcpSteal::HttpResponse(response))
    );
    assert_eq!(
        handler.next(4, Incoming::Data(b"pong".to_vec())),
        Some(ClientMessage::TcpSteal(LayerTcpSteal::Data(TcpData {
            connection_id: 4,
            bytes: b"pong".to_vec(),
        })))
    );
    assert_eq!(
        handler.next(4, Incoming::Eof),
        Some(ClientMessage::TcpSteal(LayerTcpSteal::ConnectionUnsubscribe(4)))
    );
    assert_eq!(handler.next(4, Incoming::Error), None);
}

#[test]
fn messages_of_the_agent_are_dispatched() {
    let mut handler = TcpStealHandler::new(None);
    handler.handle_listen(listen(80, 8080)).unwrap();
    assert_eq!(handler.handle_daemon_message(DaemonTcp::SubscribeResult(Ok(80))), Ok(Vec::new()));
    assert_eq!(
        handler.handle_daemon_message(DaemonTcp::SubscribeResult(Err(
            ResponseError::PortAlreadyStolen(80)
        ))),
        Err(LayerError::SubscribeFailed(ResponseError::PortAlreadyStolen(80)))
    );
    assert_eq!(
        handler.handle_daemon_message(DaemonTcp::NewConnection(connection(0, 80))),
        Ok(vec![LayerAction::Dial { connection_id: 0, port: 8080, ipv6: false }])
    );
    assert_eq!(
        handler.handle_daemon_message(DaemonTcp::Data(TcpData {
            connection_id: 0,
            bytes: b"x".to_vec(),
        })),
        Ok(vec![LayerAction::Write(0, b"x".to_vec())])
    );
    assert_eq!(
        handler.handle_daemon_message(DaemonTcp::HttpRequest(request(0, 1))),
        Ok(vec![
            LayerAction::ConnectHttp { connection_id: 0, port: 80 },
            LayerAction::ForwardRequest(request(0, 1)),
        ])
    );
    assert_eq!(
        handler.handle_daemon_message(DaemonTcp::Close(TcpClose { connection_id: 0 })),
        Ok(vec![LayerAction::DropConnection(0)])
    );
}

#[test]
fn mirror_messages_keep_their_shape() {
    assert_eq!(ClientMessage::Tcp(LayerTcp::PortSubscribe(80)), ClientMessage::Tcp(LayerTcp::PortSubscribe(80)));
    assert_ne!(LayerTcp::PortSubscribe(80), LayerTcp::PortUnsubscribe(80));
    assert_eq!(PortSteal::Steal(80).port(), 80);
    assert_eq!(PortSteal::HttpFilterSteal(81, "x".to_string()).port(), 81);
}
