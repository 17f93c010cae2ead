use mirrord_steal::api::{ClientCommand, StealerCommand, TcpCommand, TcpStealerApi};
use mirrord_steal::http_filter::{
    HandlerDecision, HttpFilter, HyperHandler, MatchedHttpRequest, StolenConnection,
};
use mirrord_steal::http_traffic::HttpFilterManager;
use mirrord_steal::filter::HeaderFilter;
use mirrord_steal::protocol::{
    DaemonTcp, HttpHeader, HttpProtocol, HttpRequest, HttpResponse, InternalHttpRequest,
    InternalHttpResponse, IpAddress, NewTcpConnection, PortSteal, ResponseError, SocketAddress,
    TcpClose, TcpData,
};
use mirrord_steal::stealer::{Requested, TcpConnectionStealer};
use mirrord_steal::stealer_model::{
    AgentError, Incoming, StealerAction, StealerEvent, Step, SubscribePlan,
};
use mirrord_steal::http_filter::HttpTrafficError;

const LISTENER: u16 = 40000;

fn destination(port: u16) -> SocketAddress {
    SocketAddress { ip: IpAddress::V4(0x0a00_0005), port }
}

fn source(port: u16) -> SocketAddress {
    SocketAddress { ip: IpAddress::V4(0x7f00_0001), port }
}

fn subscribed(port: u16) -> Vec<StealerAction> {
    vec![StealerAction::Send(1, DaemonTcp::SubscribeResult(Ok(port)))]
}

fn stealer_with_client(client: u32) -> TcpConnectionStealer {
    let mut stealer = TcpConnectionStealer::new(LISTENER);
    stealer.new_client(client);
    stealer
}

fn steal(stealer: &mut TcpConnectionStealer, client: u32, port: u16) -> Vec<StealerAction> {
    stealer.port_subscribe(client, PortSteal::Steal(port), true).unwrap()
}

fn filter(
    stealer: &mut TcpConnectionStealer,
    client: u32,
    port: u16,
    pattern: &str,
) -> Vec<StealerAction> {
    stealer.port_subscribe(client, PortSteal::HttpFilterSteal(port, pattern.to_string()), true).unwrap()
}

fn get(name: &str, value: &str) -> InternalHttpRequest {
    InternalHttpRequest {
        method: "GET".to_string(),
        uri: "/".to_string(),
        headers: vec![HttpHeader { name: name.as_bytes().to_vec(), value: value.as_bytes().to_vec() }],
        version: HttpProtocol::Http11,
        body: Vec::new(),
    }
}

fn ok_response(connection_id: u64, request_id: u64) -> HttpResponse {
    HttpResponse {
        request_id,
        connection_id,
        port: 7777,
        response: InternalHttpResponse {
            status: 200,
            version: HttpProtocol::Http11,
            headers: Vec::new(),
            body: b"ok".to_vec(),
        },
    }
}

#[test]
fn a_fresh_stealer_plans_an_installation() {
    let stealer = TcpConnectionStealer::new(LISTENER);
    assert_eq!(stealer.listener_port(), LISTENER);
    assert_eq!(
        stealer.plan_subscribe(1, &PortSteal::Steal(80)),
        SubscribePlan::Install { init_guard: true }
    );
    assert_eq!(
        stealer.plan_subscribe(1, &PortSteal::HttpFilterSteal(80, "(".to_string())),
        SubscribePlan::BadFilter
    );
    assert!(!stealer.needs_probe(80));
}

#[test]
fn single_client_full_port_steal_plain_bytes() {
    let mut stealer = stealer_with_client(1);
    assert_eq!(steal(&mut stealer, 1, 80), subscribed(80));
    let requests = [
        "GET / HTTP/1.1\r\nHost: localhost\r\n\r\n",
        "POST / HTTP/1.1\r\nHost: localhost\r\n\r\npost-data",
        "PUT / HTTP/1.1\r\nHost: localhost\r\n\r\nput-data",
        "DELETE / HTTP/1.1\r\nHost: localhost\r\n\r\ndelete-data",
    ];
    for (i, request) in requests.iter().enumerate() {
        let id = i as u64;
        let accepted = stealer.incoming_connection(destination(80), source(31415), b"").unwrap();
        assert_eq!(
            accepted,
            vec![
                StealerAction::Register(id),
                StealerAction::Send(
                    1,
                    DaemonTcp::NewConnection(NewTcpConnection {
                        connection_id: id,
                        address: IpAddress::V4(0x7f00_0001),
                        destination_port: 80,
                        source_port: 31415,
                    })
                ),
            ]
        );
        // the request arrives in two reads; the client gets both in order
        let (head, tail) = request.as_bytes().split_at(10);
        let mut seen = Vec::new();
        for piece in [head, tail] {
            let actions = stealer.forward_incoming_tcp_data(id, Incoming::Data(piece.to_vec()));
            assert_eq!(actions.len(), 1);
            match &actions[0] {
                StealerAction::Send(1, DaemonTcp::Data(data)) => {
                    assert_eq!(data.connection_id, id);
                    seen.extend_from_slice(&data.bytes);
                }
                other => panic!("unexpected action {:?}", other),
            }
        }
        assert_eq!(seen, request.as_bytes());
        assert_eq!(
            stealer.forward_incoming_tcp_data(id, Incoming::Eof),
            vec![
                StealerAction::Send(1, DaemonTcp::Close(TcpClose { connection_id: id })),
                StealerAction::CloseConnection(id),
            ]
        );
        // the connection is gone: nothing more is forwarded for it
        assert_eq!(stealer.forward_incoming_tcp_data(id, Incoming::Data(vec![1])), Vec::new());
    }
}

#[test]
fn two_clients_compete_for_the_same_full_port() {
    let mut stealer = stealer_with_client(1);
    stealer.new_client(2);
    assert_eq!(steal(&mut stealer, 1, 80), subscribed(80));
    assert_eq!(stealer.plan_subscribe(2, &PortSteal::Steal(80)), SubscribePlan::Conflict);
    assert_eq!(
        steal(&mut stealer, 2, 80),
        vec![StealerAction::Send(
            2,
            DaemonTcp::SubscribeResult(Err(ResponseError::PortAlreadyStolen(80)))
        )]
    );
    // a filter cannot be put on a port that is stolen whole either
    assert_eq!(
        filter(&mut stealer, 2, 80, "Hello"),
        vec![StealerAction::Send(
            2,
            DaemonTcp::SubscribeResult(Err(ResponseError::PortAlreadyStolen(80)))
        )]
    );
    // the state is unchanged: the next connection still goes to the first client
    let accepted = stealer.incoming_connection(destination(80), source(5000), b"").unwrap();
    assert!(matches!(&accepted[1], StealerAction::Send(1, DaemonTcp::NewConnection(_))));
    // and giving up the port as the second client removes nothing
    assert_eq!(stealer.port_unsubscribe(2, 80), Vec::new());
    assert_eq!(
        stealer.port_unsubscribe(1, 80),
        vec![StealerAction::RemoveRedirect(80, LISTENER), StealerAction::DropIpTables]
    );
}

#[test]
fn http_header_filter_match() {
    let mut stealer = stealer_with_client(1);
    assert_eq!(filter(&mut stealer, 1, 7777, "Hello"), subscribed(7777));
    assert!(stealer.needs_probe(7777));
    let peeked = b"GET / HTTP/1.1\r\nMirrord-Test: Hello\r\n\r\n";
    let accepted = stealer.incoming_connection(destination(7777), source(5000), peeked).unwrap();
    let mut handler = match accepted.as_slice() {
        [StealerAction::StartFilter(HttpFilter::Serve(handler))] => HyperHandler {
            connection_id: handler.connection_id,
            port: handler.port,
            original_destination: handler.original_destination,
            request_id: handler.request_id,
        },
        other => panic!("unexpected actions {:?}", other),
    };
    assert_eq!(handler.connection_id, 0);
    assert_eq!(handler.port, 7777);
    assert_eq!(handler.original_destination, destination(7777));
    assert_eq!(handler.request_id, 0);

    // the HTTP task decides with the filters of the port
    let filters = HttpFilterManager::new(7777, 1, HeaderFilter::new("Hello").unwrap());
    let request = get("mirrord-test", "Hello");
    let matched = match handler.call(&filters, request.clone()).unwrap() {
        HandlerDecision::Matched(matched) => matched,
        other => panic!("unexpected decision {:?}", other),
    };
    assert_eq!(matched.client_id, 1);
    assert_eq!(matched.request_id, 1);
    assert_eq!(
        stealer.matched_request(matched),
        vec![StealerAction::Send(
            1,
            DaemonTcp::HttpRequest(HttpRequest {
                request,
                connection_id: 0,
                request_id: 1,
                port: 7777,
            })
        )]
    );
    // the client's answer goes back to the HTTP task
    assert_eq!(
        stealer.http_response(ok_response(0, 1)),
        vec![StealerAction::Respond(ok_response(0, 1))]
    );
    // an answer that nobody awaits is dropped
    assert_eq!(stealer.http_response(ok_response(0, 1)), Vec::new());
    assert_eq!(stealer.http_response(ok_response(9, 1)), Vec::new());
}

#[test]
fn http_header_filter_miss() {
    let mut stealer = stealer_with_client(1);
    filter(&mut stealer, 1, 7777, "Hello");
    let peeked = b"GET / HTTP/1.1\r\nMirrord-Test: World\r\n\r\n";
    let accepted = stealer.incoming_connection(destination(7777), source(5000), peeked).unwrap();
    assert!(matches!(accepted.as_slice(), [StealerAction::StartFilter(HttpFilter::Serve(_))]));
    let filters = HttpFilterManager::new(7777, 1, HeaderFilter::new("Hello").unwrap());
    let mut handler = HyperHandler {
        connection_id: 0,
        port: 7777,
        original_destination: destination(7777),
        request_id: 0,
    };
    let request = get("mirrord-test", "World");
    assert_eq!(
        handler.call(&filters, request.clone()),
        Ok(HandlerDecision::Unmatched { destination: destination(7777), request })
    );
}

#[test]
fn non_http_passthrough() {
    let mut stealer = stealer_with_client(1);
    filter(&mut stealer, 1, 9000, "X");
    let accepted =
        stealer.incoming_connection(destination(9000), source(5000), b"\x00\x01\x02\x03").unwrap();
    assert_eq!(
        accepted,
        vec![StealerAction::StartFilter(HttpFilter::PassThrough(StolenConnection {
            original_address: destination(9000),
            connection_id: 0,
        }))]
    );
    // a passed-through connection takes no requests, responses or bytes
    let stray = MatchedHttpRequest {
        port: 9000,
        connection_id: 0,
        client_id: 1,
        request_id: 1,
        request: get("x", "X"),
    };
    assert_eq!(stealer.matched_request(stray), Vec::new());
    assert_eq!(stealer.http_response(ok_response(0, 1)), Vec::new());
    assert_eq!(stealer.forward_data(TcpData { connection_id: 0, bytes: vec![1] }), Vec::new());
    stealer.connection_closed(0);
}

#[test]
fn client_close_cascade() {
    let mut stealer = stealer_with_client(1);
    assert_eq!(steal(&mut stealer, 1, 80), subscribed(80));
    assert_eq!(steal(&mut stealer, 1, 81), subscribed(81));
    stealer.incoming_connection(destination(80), source(5000), b"").unwrap();
    stealer.incoming_connection(destination(81), source(5001), b"").unwrap();
    assert_eq!(
        stealer.close_client(1),
        vec![
            StealerAction::RemoveRedirect(80, LISTENER),
            StealerAction::RemoveRedirect(81, LISTENER),
            StealerAction::DropIpTables,
            StealerAction::DropClient(1),
            StealerAction::CloseConnection(0),
            StealerAction::CloseConnection(1),
        ]
    );
    // nothing is emitted after the drop
    assert!(!stealer.is_client(1));
    assert_eq!(stealer.forward_incoming_tcp_data(0, Incoming::Data(vec![1])), Vec::new());
    assert_eq!(stealer.forward_data(TcpData { connection_id: 1, bytes: vec![1] }), Vec::new());
    assert_eq!(
        stealer.incoming_connection(destination(80), source(5002), b""),
        Err(AgentError::UnexpectedConnection(80))
    );
    // the chain is set up afresh for the next subscription
    assert_eq!(
        stealer.plan_subscribe(2, &PortSteal::Steal(80)),
        SubscribePlan::Install { init_guard: true }
    );
}

#[test]
fn closing_one_client_leaves_the_others() {
    let mut stealer = stealer_with_client(1);
    stealer.new_client(2);
    filter(&mut stealer, 1, 80, "a");
    filter(&mut stealer, 2, 80, "b");
    steal(&mut stealer, 2, 81);
    steal(&mut stealer, 1, 82);
    stealer.incoming_connection(destination(81), source(1), b"").unwrap();
    stealer.incoming_connection(destination(82), source(2), b"").unwrap();
    assert_eq!(
        stealer.close_client(1),
        vec![
            StealerAction::RemoveRedirect(82, LISTENER),
            StealerAction::DropClient(1),
            StealerAction::CloseConnection(1),
        ]
    );
    assert!(stealer.needs_probe(80));
    assert!(stealer.is_client(2));
    assert_eq!(
        stealer.forward_data(TcpData { connection_id: 0, bytes: b"x".to_vec() }),
        vec![StealerAction::Write(0, b"x".to_vec())]
    );
}

#[test]
fn unexpected_connection_is_turned_down() {
    let mut stealer = stealer_with_client(1);
    steal(&mut stealer, 1, 80);
    assert_eq!(
        stealer.incoming_connection(destination(8080), source(5000), b"GET /"),
        Err(AgentError::UnexpectedConnection(8080))
    );
    // no id was used up
    let accepted = stealer.incoming_connection(destination(80), source(5000), b"").unwrap();
    assert_eq!(accepted[0], StealerAction::Register(0));
}

#[test]
fn nothing_peeked_closes_a_filtered_connection() {
    let mut stealer = stealer_with_client(1);
    filter(&mut stealer, 1, 7777, "Hello");
    assert_eq!(
        stealer.incoming_connection(destination(7777), source(5000), b""),
        Err(AgentError::HttpTraffic(HttpTrafficError::Empty))
    );
    // no record was made: the first id is still free
    let accepted = stealer.incoming_connection(destination(7777), source(5000), b"GET / ").unwrap();
    match accepted.as_slice() {
        [StealerAction::StartFilter(HttpFilter::Serve(handler))] => {
            assert_eq!(handler.connection_id, 0)
        }
        other => panic!("unexpected actions {:?}", other),
    }
}

#[test]
fn double_subscribe_is_idempotent() {
    let mut stealer = stealer_with_client(1);
    assert_eq!(steal(&mut stealer, 1, 80), subscribed(80));
    assert_eq!(stealer.plan_subscribe(1, &PortSteal::Steal(80)), SubscribePlan::Update);
    // no rule is asked for, so it does not matter what is said of its installation
    assert_eq!(stealer.port_subscribe(1, PortSteal::Steal(80), false), Ok(subscribed(80)));
    assert_eq!(
        stealer.port_unsubscribe(1, 80),
        vec![StealerAction::RemoveRedirect(80, LISTENER), StealerAction::DropIpTables]
    );
    assert_eq!(stealer.port_unsubscribe(1, 80), Vec::new());

    assert_eq!(filter(&mut stealer, 1, 7777, "Hello"), subscribed(7777));
    assert_eq!(filter(&mut stealer, 1, 7777, "Hello"), subscribed(7777));
    assert_eq!(
        stealer.port_unsubscribe(1, 7777),
        vec![StealerAction::RemoveRedirect(7777, LISTENER), StealerAction::DropIpTables]
    );
    assert!(!stealer.needs_probe(7777));
}

#[test]
fn one_rule_per_port_however_many_filters() {
    let mut stealer = stealer_with_client(1);
    stealer.new_client(2);
    stealer.new_client(3);
    assert_eq!(
        stealer.plan_subscribe(1, &PortSteal::HttpFilterSteal(80, "a".to_string())),
        SubscribePlan::Install { init_guard: true }
    );
    filter(&mut stealer, 1, 80, "a");
    assert_eq!(
        stealer.plan_subscribe(2, &PortSteal::HttpFilterSteal(80, "b".to_string())),
        SubscribePlan::Join
    );
    filter(&mut stealer, 2, 80, "b");
    filter(&mut stealer, 3, 80, "c");
    assert_eq!(
        stealer.plan_subscribe(3, &PortSteal::Steal(81)),
        SubscribePlan::Install { init_guard: false }
    );
    steal(&mut stealer, 3, 81);
    // the rule of a port goes with its last subscriber, the chain with the last port
    assert_eq!(stealer.port_unsubscribe(1, 80), Vec::new());
    assert_eq!(stealer.port_unsubscribe(3, 80), Vec::new());
    assert_eq!(
        stealer.port_unsubscribe(2, 80),
        vec![StealerAction::RemoveRedirect(80, LISTENER)]
    );
    assert_eq!(
        stealer.port_unsubscribe(3, 81),
        vec![StealerAction::RemoveRedirect(81, LISTENER), StealerAction::DropIpTables]
    );
}

#[test]
fn a_rule_that_cannot_be_installed_stops_the_stealer() {
    let mut stealer = stealer_with_client(1);
    assert_eq!(
        stealer.port_subscribe(1, PortSteal::Steal(80), false),
        Err(AgentError::RedirectFailed(80))
    );
    // the subscription was not recorded
    assert_eq!(
        stealer.incoming_connection(destination(80), source(5000), b""),
        Err(AgentError::UnexpectedConnection(80))
    );
    assert_eq!(
        stealer.plan_subscribe(1, &PortSteal::Steal(80)),
        SubscribePlan::Install { init_guard: true }
    );
}

#[test]
fn a_bad_filter_is_turned_down() {
    let mut stealer = stealer_with_client(1);
    assert_eq!(
        filter(&mut stealer, 1, 80, "(unclosed"),
        vec![StealerAction::Send(
            1,
            DaemonTcp::SubscribeResult(Err(ResponseError::BadHttpFilterRegex(80)))
        )]
    );
    assert!(!stealer.needs_probe(80));
    let (port, requested) = Requested::compile(&PortSteal::HttpFilterSteal(80, "(".to_string()));
    assert_eq!(port, 80);
    assert!(matches!(requested, Requested::BadFilter));
    assert_eq!(stealer.plan(1, 80, &requested), SubscribePlan::BadFilter);
}

#[test]
fn a_client_without_a_sink_gets_no_reply() {
    let mut stealer = TcpConnectionStealer::new(LISTENER);
    assert_eq!(steal(&mut stealer, 1, 80), Vec::new());
    assert_eq!(
        stealer.send_message_to_single_client(1, DaemonTcp::Close(TcpClose { connection_id: 0 })),
        Vec::new()
    );
    // a connection for it clears its stale subscriptions away
    assert_eq!(
        stealer.incoming_connection(destination(80), source(5000), b""),
        Ok(vec![
            StealerAction::RemoveRedirect(80, LISTENER),
            StealerAction::DropIpTables,
            StealerAction::DropClient(1),
        ])
    );
    assert_eq!(
        stealer.incoming_connection(destination(80), source(5000), b""),
        Err(AgentError::UnexpectedConnection(80))
    );
}

#[test]
fn a_client_can_change_what_it_asks_of_its_port() {
    let mut stealer = stealer_with_client(1);
    steal(&mut stealer, 1, 80);
    assert!(!stealer.needs_probe(80));
    assert_eq!(filter(&mut stealer, 1, 80, "Hello"), subscribed(80));
    assert!(stealer.needs_probe(80));
    assert_eq!(steal(&mut stealer, 1, 80), subscribed(80));
    assert!(!stealer.needs_probe(80));
    assert_eq!(
        stealer.port_unsubscribe(1, 80),
        vec![StealerAction::RemoveRedirect(80, LISTENER), StealerAction::DropIpTables]
    );
}

#[test]
fn response_data_is_written_in_submission_order() {
    let mut stealer = stealer_with_client(1);
    steal(&mut stealer, 1, 80);
    stealer.incoming_connection(destination(80), source(1), b"").unwrap();
    stealer.incoming_connection(destination(80), source(2), b"").unwrap();
    let chunks: [(u64, &[u8]); 5] =
        [(0, b"HTTP/1.1 "), (1, b"other"), (0, b"200 OK\r\n"), (7, b"lost"), (0, b"\r\n")];
    let mut written = Vec::new();
    for (connection_id, bytes) in chunks {
        let data = TcpData { connection_id, bytes: bytes.to_vec() };
        for action in stealer.forward_data(data) {
            match action {
                StealerAction::Write(0, bytes) => written.extend_from_slice(&bytes),
                StealerAction::Write(1, bytes) => assert_eq!(bytes, b"other".to_vec()),
                other => panic!("unexpected action {:?}", other),
            }
        }
    }
    assert_eq!(written, b"HTTP/1.1 200 OK\r\n\r\n".to_vec());
}

#[test]
fn responses_leave_in_request_order() {
    let mut stealer = stealer_with_client(1);
    filter(&mut stealer, 1, 7777, "Hello");
    stealer.incoming_connection(destination(7777), source(5000), b"GET / HTTP/1.1\r\n").unwrap();
    for request_id in [1, 2, 4] {
        let matched = MatchedHttpRequest {
            port: 7777,
            connection_id: 0,
            client_id: 1,
            request_id,
            request: get("mirrord-test", "Hello"),
        };
        assert_eq!(stealer.matched_request(matched).len(), 1);
    }
    assert_eq!(stealer.http_response(ok_response(0, 4)), Vec::new());
    assert_eq!(stealer.http_response(ok_response(0, 2)), Vec::new());
    assert_eq!(
        stealer.http_response(ok_response(0, 1)),
        vec![
            StealerAction::Respond(ok_response(0, 1)),
            StealerAction::Respond(ok_response(0, 2)),
            StealerAction::Respond(ok_response(0, 4)),
        ]
    );
    // a request whose id does not rise is not taken
    let stale = MatchedHttpRequest {
        port: 7777,
        connection_id: 0,
        client_id: 1,
        request_id: 3,
        request: get("mirrord-test", "Hello"),
    };
    assert_eq!(stealer.matched_request(stale), Vec::new());
}

#[test]
fn connection_unsubscribe_drops_both_halves() {
    let mut stealer = stealer_with_client(1);
    steal(&mut stealer, 1, 80);
    stealer.incoming_connection(destination(80), source(1), b"").unwrap();
    assert_eq!(stealer.connection_unsubscribe(0), vec![StealerAction::CloseConnection(0)]);
    assert_eq!(stealer.connection_unsubscribe(0), Vec::new());
    assert_eq!(stealer.forward_data(TcpData { connection_id: 0, bytes: vec![1] }), Vec::new());
    assert_eq!(stealer.forward_incoming_tcp_data(0, Incoming::Eof), Vec::new());
    // ids are not handed out again
    let accepted = stealer.incoming_connection(destination(80), source(1), b"").unwrap();
    assert_eq!(accepted[0], StealerAction::Register(1));
}

#[test]
fn a_failed_read_closes_the_connection() {
    let mut stealer = stealer_with_client(1);
    steal(&mut stealer, 1, 80);
    stealer.incoming_connection(destination(80), source(1), b"").unwrap();
    assert_eq!(
        stealer.forward_incoming_tcp_data(0, Incoming::Error),
        vec![
            StealerAction::Send(1, DaemonTcp::Close(TcpClose { connection_id: 0 })),
            StealerAction::CloseConnection(0),
        ]
    );
}

#[test]
fn the_loop_runs_on_events() {
    let mut stealer = TcpConnectionStealer::new(LISTENER);
    let (api, first) = TcpStealerApi::new(1);
    assert_eq!(api.client_id(), 1);
    assert_eq!(first, ClientCommand { client_id: 1, command: StealerCommand::NewClient });
    let go_on = |actions| Ok(Step { actions, keep_running: true });
    let stop = || Ok(Step { actions: Vec::new(), keep_running: false });
    assert_eq!(
        stealer.start(StealerEvent::Command { command: Some(first), rule_installed: false }),
        go_on(Vec::new())
    );
    assert_eq!(
        stealer.start(StealerEvent::Command {
            command: Some(api.port_subscribe(PortSteal::Steal(80))),
            rule_installed: true,
        }),
        go_on(subscribed(80))
    );
    assert_eq!(
        stealer.start(StealerEvent::Accepted {
            destination: destination(81),
            source: source(1),
            peeked: Vec::new(),
        }),
        go_on(Vec::new())
    );
    let accepted = stealer
        .start(StealerEvent::Accepted {
            destination: destination(80),
            source: source(1),
            peeked: Vec::new(),
        })
        .unwrap();
    assert_eq!(accepted.actions[0], StealerAction::Register(0));
    assert_eq!(
        stealer.start(StealerEvent::Read(0, Incoming::Data(b"ping".to_vec()))),
        go_on(vec![StealerAction::Send(
            1,
            DaemonTcp::Data(TcpData { connection_id: 0, bytes: b"ping".to_vec() })
        )])
    );
    assert_eq!(
        stealer.start(StealerEvent::Command {
            command: Some(api.client_data(TcpData { connection_id: 0, bytes: b"pong".to_vec() })),
            rule_installed: false,
        }),
        go_on(vec![StealerAction::Write(0, b"pong".to_vec())])
    );
    assert_eq!(
        stealer.start(StealerEvent::Command {
            command: Some(api.connection_unsubscribe(0)),
            rule_installed: false,
        }),
        go_on(vec![StealerAction::CloseConnection(0)])
    );
    assert_eq!(stealer.start(StealerEvent::ConnectionClosed(0)), go_on(Vec::new()));
    assert_eq!(
        stealer.start(StealerEvent::Command {
            command: Some(api.port_subscribe(PortSteal::Steal(81))),
            rule_installed: false,
        }),
        Err(AgentError::RedirectFailed(81))
    );
    assert_eq!(
        stealer.start(StealerEvent::Command {
            command: Some(api.port_unsubscribe(80)),
            rule_installed: false,
        }),
        go_on(vec![StealerAction::RemoveRedirect(80, LISTENER), StealerAction::DropIpTables])
    );
    assert_eq!(
        stealer.start(StealerEvent::Command {
            command: Some(api.close_client()),
            rule_installed: false,
        }),
        go_on(vec![StealerAction::DropClient(1)])
    );
    assert_eq!(stealer.start(StealerEvent::AcceptFailed), stop());
    assert_eq!(stealer.start(StealerEvent::Cancelled), stop());
    assert_eq!(
        stealer.start(StealerEvent::Command { command: None, rule_installed: false }),
        stop()
    );
}

#[test]
fn commands_carry_the_clients_id() {
    let (api, _) = TcpStealerApi::new(9);
    assert_eq!(
        api.send_command(StealerCommand::ClientClose),
        ClientCommand { client_id: 9, command: StealerCommand::ClientClose }
    );
    assert_eq!(api.new_client().command, StealerCommand::NewClient);
    assert_eq!(api.port_unsubscribe(80).command, StealerCommand::PortUnsubscribe(80));
    assert_eq!(api.close_client().command, StealerCommand::ClientClose);
    assert_eq!(
        api.http_response(ok_response(0, 1)).command,
        StealerCommand::HttpResponse(ok_response(0, 1))
    );
    assert_eq!(StealerCommand::get_new_client_command(), StealerCommand::NewClient);
    assert_eq!(
        StealerCommand::get_port_subscribe_command(PortSteal::Steal(1)),
        StealerCommand::PortSubscribe(PortSteal::Steal(1))
    );
    assert_eq!(StealerCommand::get_port_unsubscribe_command(1), StealerCommand::PortUnsubscribe(1));
    assert_eq!(
        StealerCommand::get_connection_unsubscribe_command(4),
        StealerCommand::ConnectionUnsubscribe(4)
    );
    assert_eq!(StealerCommand::get_client_close_command(), StealerCommand::ClientClose);
}

#[test]
fn only_response_data_writes_to_a_connection() {
    let mut stealer = stealer_with_client(1);
    steal(&mut stealer, 1, 80);
    let mut actions = stealer.incoming_connection(destination(80), source(1), b"").unwrap();
    actions.extend(stealer.forward_incoming_tcp_data(0, Incoming::Data(b"in".to_vec())));
    actions.extend(stealer.forward_data(TcpData { connection_id: 0, bytes: b"out".to_vec() }));
    actions.extend(stealer.port_unsubscribe(1, 80));
    actions.extend(stealer.close_client(1));
    let writes: Vec<&StealerAction> =
        actions.iter().filter(|action| matches!(action, StealerAction::Write(_, _))).collect();
    assert_eq!(writes, vec![&StealerAction::Write(0, b"out".to_vec())]);
}

#[test]
fn a_filter_that_opens_a_conditional_is_turned_down() {
    let mut stealer = stealer_with_client(1);
    for pattern in ["(?(1)", "(?(a)b", "x(?=y)", "(a)\\1"] {
        assert_eq!(
            stealer.plan_subscribe(1, &PortSteal::HttpFilterSteal(80, pattern.to_string())),
            SubscribePlan::BadFilter
        );
        assert_eq!(
            filter(&mut stealer, 1, 80, pattern),
            vec![StealerAction::Send(
                1,
                DaemonTcp::SubscribeResult(Err(ResponseError::BadHttpFilterRegex(80)))
            )]
        );
    }
    assert!(!stealer.needs_probe(80));
    let command = ClientCommand {
        client_id: 1,
        command: StealerCommand::PortSubscribe(PortSteal::HttpFilterSteal(80, "(?(1)".to_string())),
    };
    assert_eq!(
        stealer.start(StealerEvent::Command { command: Some(command), rule_installed: true }),
        Ok(Step {
            actions: vec![StealerAction::Send(
                1,
                DaemonTcp::SubscribeResult(Err(ResponseError::BadHttpFilterRegex(80)))
            )],
            keep_running: true,
        })
    );
}

#[test]
fn a_failed_send_counts_as_the_clients_leave() {
    let mut stealer = stealer_with_client(1);
    stealer.new_client(2);
    steal(&mut stealer, 1, 80);
    steal(&mut stealer, 2, 81);
    stealer.incoming_connection(destination(80), source(1), b"").unwrap();
    assert_eq!(
        stealer.start(StealerEvent::SendFailed(1)),
        Ok(Step {
            actions: vec![
                StealerAction::RemoveRedirect(80, LISTENER),
                StealerAction::DropClient(1),
                StealerAction::CloseConnection(0),
            ],
            keep_running: true,
        })
    );
    assert!(!stealer.is_client(1));
    assert!(stealer.is_client(2));
    assert_eq!(
        stealer.start(StealerEvent::SendFailed(7)),
        Ok(Step { actions: vec![StealerAction::DropClient(7)], keep_running: true })
    );
}

#[test]
fn a_failed_write_ends_the_connection() {
    let mut stealer = stealer_with_client(1);
    steal(&mut stealer, 1, 80);
    stealer.incoming_connection(destination(80), source(1), b"").unwrap();
    assert_eq!(
        stealer.start(StealerEvent::WriteFailed(0)),
        Ok(Step {
            actions: vec![
                StealerAction::Send(1, DaemonTcp::Close(TcpClose { connection_id: 0 })),
                StealerAction::CloseConnection(0),
            ],
            keep_running: true,
        })
    );
    assert_eq!(
        stealer.start(StealerEvent::WriteFailed(0)),
        Ok(Step { actions: Vec::new(), keep_running: true })
    );
    assert_eq!(stealer.forward_data(TcpData { connection_id: 0, bytes: vec![1] }), Vec::new());
}
