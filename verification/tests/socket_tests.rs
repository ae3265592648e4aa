use canabi::socket::{Datagram, Network, SockAddr, Socket, SocketError, SocketState, Transport};

fn addr(last: u8, port: u16) -> SockAddr {
    SockAddr { o1: 127, o2: 0, o3: 0, o4: last, port }
}

#[test]
fn tcp_lifecycle_reaches_connected_with_working_streams() {
    let mut net = Network::new();
    net.listen(addr(1, 8080));

    let mut sock = Socket::new(Transport::Tcp);
    assert_eq!(sock.state, SocketState::Unbound);
    sock.start_bind(addr(9, 0)).unwrap();
    assert_eq!(sock.state, SocketState::Binding);
    sock.finish_bind().unwrap();
    assert_eq!(sock.state, SocketState::Bound);

    sock.start_connect(&net, addr(1, 8080)).unwrap();
    assert_eq!(sock.state, SocketState::Connecting);
    // Completion polled before the pollable is ready: WouldBlock, no hang.
    assert_eq!(sock.finish_connect(), Err(SocketError::WouldBlock));
    assert_eq!(sock.state, SocketState::Connecting);

    sock.await_connect();
    sock.finish_connect().unwrap();
    assert_eq!(sock.state, SocketState::Connected);

    // The connection owns exactly one input and one output stream, and
    // both function.
    let tx = sock.tx.as_mut().unwrap();
    tx.blocking_write_all(&b"ping".to_vec()).unwrap();
    assert_eq!(tx.sent, b"ping".to_vec());
    let rx = sock.rx.as_mut().unwrap();
    rx.deliver(b"pong".to_vec());
    assert_eq!(rx.blocking_read(16).unwrap(), b"pong".to_vec());
}

#[test]
fn connect_to_non_listening_peer_is_refused_not_hung() {
    let net = Network::new();
    let mut sock = Socket::new(Transport::Tcp);
    sock.start_bind(addr(9, 0)).unwrap();
    sock.finish_bind().unwrap();
    sock.start_connect(&net, addr(2, 9999)).unwrap();
    sock.await_connect();
    assert_eq!(sock.finish_connect(), Err(SocketError::Refused));
    assert_eq!(sock.state, SocketState::Errored);
}

#[test]
fn lifecycle_order_is_enforced() {
    let mut sock = Socket::new(Transport::Tcp);
    assert_eq!(sock.finish_bind(), Err(SocketError::InvalidState));
    let net = Network::new();
    assert_eq!(sock.start_connect(&net, addr(1, 1)), Err(SocketError::InvalidState));
    sock.start_bind(addr(9, 0)).unwrap();
    assert_eq!(sock.start_bind(addr(9, 0)), Err(SocketError::InvalidState));
    assert_eq!(sock.finish_connect(), Err(SocketError::InvalidState));
}

#[test]
fn closing_the_socket_invalidates_both_streams() {
    let mut net = Network::new();
    net.listen(addr(1, 80));
    let mut sock = Socket::new(Transport::Tcp);
    sock.start_bind(addr(9, 0)).unwrap();
    sock.finish_bind().unwrap();
    sock.start_connect(&net, addr(1, 80)).unwrap();
    sock.await_connect();
    sock.finish_connect().unwrap();
    sock.close();
    assert_eq!(sock.state, SocketState::Closed);
    assert!(sock.rx.is_none());
    assert!(sock.tx.is_none());
    sock.close();
    assert_eq!(sock.state, SocketState::Closed);
}

#[test]
fn udp_skips_connecting_and_sends_per_datagram() {
    let mut sock = Socket::new(Transport::Udp);
    let net = Network::new();
    // A datagram socket has no connect path.
    assert_eq!(sock.start_connect(&net, addr(1, 1)), Err(SocketError::WrongTransport));
    sock.start_bind(addr(9, 5353)).unwrap();
    sock.finish_bind().unwrap();

    let batch = vec![
        Datagram { data: b"a".to_vec(), addr: Some(addr(1, 53)) },
        Datagram { data: b"b".to_vec(), addr: Some(addr(2, 53)) },
    ];
    assert_eq!(sock.send(batch).unwrap(), 2);
    assert_eq!(sock.dg_out.len(), 2);
    assert_eq!(sock.dg_out[0].data, b"a".to_vec());
    assert_eq!(sock.dg_out[1].data, b"b".to_vec());
}

#[test]
fn udp_unaddressed_datagram_without_peer_is_rejected_whole() {
    let mut sock = Socket::new(Transport::Udp);
    sock.start_bind(addr(9, 5353)).unwrap();
    sock.finish_bind().unwrap();
    let batch = vec![
        Datagram { data: b"a".to_vec(), addr: Some(addr(1, 53)) },
        Datagram { data: b"b".to_vec(), addr: None },
    ];
    assert_eq!(sock.send(batch), Err(SocketError::NoAddress));
    // Rejected before anything was sent.
    assert_eq!(sock.dg_out.len(), 0);
}

#[test]
fn udp_receive_returns_up_to_max_oldest_first() {
    let mut sock = Socket::new(Transport::Udp);
    sock.start_bind(addr(9, 5353)).unwrap();
    sock.finish_bind().unwrap();
    for i in 0..3u8 {
        sock.deliver_datagram(Datagram { data: vec![i], addr: Some(addr(1, 53)) });
    }
    let got = sock.receive(2).unwrap();
    assert_eq!(got.len(), 2);
    assert_eq!(got[0].data, vec![0u8]);
    assert_eq!(got[1].data, vec![1u8]);
    let rest = sock.receive(10).unwrap();
    assert_eq!(rest.len(), 1);
    assert_eq!(rest[0].data, vec![2u8]);
}

#[test]
fn udp_send_needs_a_bound_socket() {
    let mut sock = Socket::new(Transport::Udp);
    let batch = vec![Datagram { data: b"a".to_vec(), addr: Some(addr(1, 53)) }];
    assert_eq!(sock.send(batch), Err(SocketError::InvalidState));
}
