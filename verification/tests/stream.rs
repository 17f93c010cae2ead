use mirrord_steal::filter::HeaderFilter;
use mirrord_steal::http_filter::{HttpFilter, HttpTrafficError, HyperHandler, StolenConnection};
use mirrord_steal::http_traffic::HttpFilterManager;
use mirrord_steal::protocol::{IpAddress, PortSteal, SocketAddress};
use mirrord_steal::reversible_stream::ReversibleStream;
use mirrord_steal::stealer::TcpConnectionStealer;

#[test]
fn peeked_bytes_are_read_again() {
    let mut stream = ReversibleStream::new(b"GET / HTTP/1.1\r\n".to_vec());
    assert_eq!(stream.peek(3), b"GET".to_vec());
    assert_eq!(stream.peek(3), b"GET".to_vec());
    assert_eq!(stream.peek(64), b"GET / HTTP/1.1\r\n".to_vec());
    assert_eq!(stream.read(4), b"GET ".to_vec());
    assert_eq!(stream.peek(1), b"/".to_vec());
    assert!(!stream.is_drained());
    assert_eq!(stream.read(64), b"/ HTTP/1.1\r\n".to_vec());
    assert!(stream.is_drained());
    assert_eq!(stream.read(64), Vec::<u8>::new());
    assert_eq!(stream.peek(64), Vec::<u8>::new());
}

#[test]
fn reads_of_any_size_give_the_same_stream() {
    let header = b"PRI * HTTP/2.0\r\n\r\nSM\r\n\r\n".to_vec();
    for step in 1..8 {
        let mut stream = ReversibleStream::new(header.clone());
        let mut seen = Vec::new();
        while !stream.is_drained() {
            seen.extend(stream.read(step));
        }
        assert_eq!(seen, header);
    }
    let mut empty = ReversibleStream::new(Vec::new());
    assert!(empty.is_drained());
    assert_eq!(empty.read(0), Vec::<u8>::new());
}

#[test]
fn a_manager_sets_up_fresh_connections() {
    let manager = HttpFilterManager::new(7777, 1, HeaderFilter::new("Hello").unwrap());
    let destination = SocketAddress { ip: IpAddress::V6(1), port: 7777 };
    let stolen = StolenConnection::new(destination, 4);
    assert_eq!(manager.new_connection(stolen, b""), Err(HttpTrafficError::Empty));
    assert_eq!(
        manager.new_connection(stolen, b"DELETE /item HTTP/1.1\r\n"),
        Ok(HttpFilter::Serve(HyperHandler {
            connection_id: 4,
            port: 7777,
            original_destination: destination,
            request_id: 0,
        }))
    );
    assert_eq!(
        manager.new_connection(stolen, b"SSH-2.0-OpenSSH_8.9\r\n"),
        Ok(HttpFilter::PassThrough(stolen))
    );
    // best effort: a banner that is cut short could still become a request line
    assert!(matches!(manager.new_connection(stolen, b"SSH-2.0-OpenSSH"), Ok(HttpFilter::Serve(_))));
}

#[test]
fn a_copy_of_the_filters_is_handed_out() {
    let mut stealer = TcpConnectionStealer::new(40000);
    stealer.new_client(1);
    stealer.new_client(2);
    assert!(stealer.filters_of(80).is_none());
    stealer.port_subscribe(1, PortSteal::HttpFilterSteal(80, "a".to_string()), true).unwrap();
    stealer.port_subscribe(2, PortSteal::HttpFilterSteal(80, "b".to_string()), true).unwrap();
    let filters = stealer.filters_of(80).unwrap();
    assert_eq!(filters.port(), 80);
    assert_eq!(filters.clients(), vec![1, 2]);
    let copy = filters.clone();
    assert_eq!(copy.clients(), vec![1, 2]);
    // a client that changes its filter keeps its place
    stealer.port_subscribe(1, PortSteal::HttpFilterSteal(80, "c".to_string()), true).unwrap();
    let mut filters = stealer.filters_of(80).unwrap();
    assert_eq!(filters.clients(), vec![1, 2]);
    assert_eq!(filters.remove_client(1), Some((1, HeaderFilter::new("c").unwrap())));
    stealer.port_unsubscribe(1, 80);
    stealer.port_unsubscribe(2, 80);
    assert!(stealer.filters_of(80).is_none());
}
