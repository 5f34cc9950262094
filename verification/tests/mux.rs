use mesh_ai_node::error::HandshakeError;
use mesh_ai_node::error::MuxError;
use mesh_ai_node::identity::conclude_handshake;
use mesh_ai_node::identity::HandshakeReport;
use mesh_ai_node::identity::PeerIdentifier;
use mesh_ai_node::message::protocol_id;
use mesh_ai_node::mux::Connection;

fn peer_a() -> PeerIdentifier {
    PeerIdentifier::parse("12D3KooWDpJ7As7BWAwRMfu1VU2WCqNjvq387JEYKDBj4kx6nXTN").unwrap()
}

fn peer_b() -> PeerIdentifier {
    PeerIdentifier::parse("QmcgpsyWgH8Y8ajJz1Cu72KnS5uo2Aa2LpzU7kinSupNKC").unwrap()
}

#[test]
fn handshake_yields_the_verified_remote() {
    assert_eq!(conclude_handshake(HandshakeReport::Completed(peer_a()), None), Ok(peer_a()));
    assert_eq!(
        conclude_handshake(HandshakeReport::Completed(peer_a()), Some(&peer_a())),
        Ok(peer_a())
    );
}

#[test]
fn handshake_with_another_peer_than_dialed_is_a_mismatch() {
    assert_eq!(
        conclude_handshake(HandshakeReport::Completed(peer_a()), Some(&peer_b())),
        Err(HandshakeError::Mismatch)
    );
}

#[test]
fn handshake_that_times_out_or_is_violated_fails() {
    assert_eq!(conclude_handshake(HandshakeReport::TimedOut, None), Err(HandshakeError::Timeout));
    assert_eq!(
        conclude_handshake(HandshakeReport::TimedOut, Some(&peer_a())),
        Err(HandshakeError::Timeout)
    );
    assert_eq!(conclude_handshake(HandshakeReport::Violated, None), Err(HandshakeError::Malformed));
    assert_eq!(
        conclude_handshake(HandshakeReport::Violated, Some(&peer_a())),
        Err(HandshakeError::Malformed)
    );
}

#[test]
fn no_connection_without_a_good_handshake() {
    assert_eq!(
        Connection::establish(HandshakeReport::Violated, None).err(),
        Some(HandshakeError::Malformed)
    );
    assert_eq!(
        Connection::establish(HandshakeReport::Completed(peer_a()), Some(&peer_b())).err(),
        Some(HandshakeError::Mismatch)
    );
}

#[test]
fn streams_are_numbered_and_tagged() {
    let mut connection =
        Connection::establish(HandshakeReport::Completed(peer_a()), Some(&peer_a())).unwrap();
    assert_eq!(connection.remote(), &peer_a());
    assert!(connection.is_open());
    assert_eq!(connection.stream_count(), 0);
    assert_eq!(connection.open_stream(protocol_id()), Ok(0));
    assert_eq!(connection.accept_stream("/ipfs/ping/1.0.0"), Ok(1));
    assert_eq!(connection.open_stream("/ipfs/id/1.0.0"), Ok(2));
    assert_eq!(connection.stream_count(), 3);
}

#[test]
fn closing_a_stream_leaves_the_connection_open() {
    let mut connection = Connection::establish(HandshakeReport::Completed(peer_a()), None).unwrap();
    let first = connection.open_stream(protocol_id()).unwrap();
    let second = connection.open_stream(protocol_id()).unwrap();
    assert!(connection.close_stream(first));
    assert!(connection.is_open());
    assert_eq!(connection.stream_count(), 1);
    assert!(!connection.close_stream(first));
    assert!(!connection.close_stream(99));
    assert_eq!(connection.stream_count(), 1);
    assert_eq!(connection.open_stream(protocol_id()), Ok(2));
    assert!(connection.close_stream(second));
    assert!(connection.is_open());
}

#[test]
fn closed_connection_cancels_its_streams_and_opens_none() {
    let mut connection = Connection::establish(HandshakeReport::Completed(peer_a()), None).unwrap();
    connection.open_stream(protocol_id()).unwrap();
    connection.accept_stream("/ipfs/ping/1.0.0").unwrap();
    let cancelled = connection.close();
    assert_eq!(cancelled.len(), 2);
    assert_eq!(cancelled[0].id, 0);
    assert_eq!(cancelled[0].protocol, "/mesh-ai/1.0.0");
    assert!(!cancelled[0].inbound);
    assert_eq!(cancelled[1].protocol, "/ipfs/ping/1.0.0");
    assert!(cancelled[1].inbound);
    assert!(!connection.is_open());
    assert_eq!(connection.stream_count(), 0);
    assert_eq!(connection.open_stream(protocol_id()), Err(MuxError::ConnectionClosed));
    assert_eq!(connection.accept_stream(protocol_id()), Err(MuxError::ConnectionClosed));
    assert!(connection.close().is_empty());
}
