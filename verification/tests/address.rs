use mesh_ai_node::address::Hop;
use mesh_ai_node::address::Multiaddress;
use mesh_ai_node::error::AddressError;
use mesh_ai_node::identity::PeerIdentifier;

const RELAY: &str = "12D3KooWDpJ7As7BWAwRMfu1VU2WCqNjvq387JEYKDBj4kx6nXTN";
const TARGET: &str = "QmcgpsyWgH8Y8ajJz1Cu72KnS5uo2Aa2LpzU7kinSupNKC";

#[test]
fn peer_identifier_takes_canonical_text() {
    let peer = PeerIdentifier::parse(RELAY).expect("a peer identifier");
    assert_eq!(peer.as_text(), RELAY);
    let other = PeerIdentifier::parse(TARGET).expect("a peer identifier");
    assert!(peer.equals(&peer.clone()));
    assert!(!peer.equals(&other));
}

#[test]
fn peer_identifier_rejects_other_text() {
    assert!(PeerIdentifier::parse("").is_none());
    assert!(PeerIdentifier::parse("not-a-peer").is_none());
    assert!(PeerIdentifier::parse("12D3KooW/DpJ7").is_none());
    assert!(PeerIdentifier::parse("0OIl").is_none());
}

#[test]
fn direct_address_round_trips() {
    let text = format!("/ip4/127.0.0.1/tcp/4001/p2p/{RELAY}");
    let address = Multiaddress::parse(&text).expect("an address");
    assert_eq!(address.transport(), "/ip4/127.0.0.1/tcp/4001");
    assert_eq!(address.hops().len(), 1);
    assert_eq!(address.serialize(), text);
    assert_eq!(Multiaddress::parse(&address.serialize()).unwrap(), address);
    assert!(!address.is_relayed());
}

#[test]
fn relayed_address_round_trips() {
    let text = format!("/ip4/10.0.0.7/tcp/9000/p2p/{RELAY}/circuit/p2p/{TARGET}");
    let address = Multiaddress::parse(&text).expect("an address");
    assert!(address.is_relayed());
    assert_eq!(address.relay_peer().unwrap().as_text(), RELAY);
    assert_eq!(address.target_peer().unwrap().as_text(), TARGET);
    assert_eq!(address.serialize(), text);
    let again = Multiaddress::parse(&address.serialize()).unwrap();
    assert!(again.equals(&address));
}

#[test]
fn listen_address_has_no_peer() {
    let address = Multiaddress::parse("/ip4/0.0.0.0/tcp/0").expect("an address");
    assert!(address.hops().is_empty());
    assert!(address.relay_peer().is_none());
    assert_eq!(address.target_peer(), Err(AddressError::MissingPeerIdentifier));
    assert_eq!(address.with_circuit().err(), Some(AddressError::MisplacedCircuit));
}

#[test]
fn with_circuit_appends_the_marker() {
    let relay = Multiaddress::parse(&format!("/ip4/127.0.0.1/tcp/4001/p2p/{RELAY}")).unwrap();
    let listen = relay.with_circuit().expect("a relayed address");
    assert_eq!(listen.serialize(), format!("/ip4/127.0.0.1/tcp/4001/p2p/{RELAY}/circuit"));
    assert_eq!(listen.hops().len(), 2);
    assert_eq!(listen.hops()[1], Hop::Circuit);
    assert_eq!(listen.with_circuit().err(), Some(AddressError::MisplacedCircuit));
}

#[test]
fn malformed_addresses_are_rejected() {
    let cases: Vec<(String, AddressError)> = vec![
        ("ip4/127.0.0.1".to_string(), AddressError::InvalidTransport),
        ("/ip4/not-an-address/tcp/1".to_string(), AddressError::InvalidTransport),
        ("/ip4/127.0.0.1/tcp".to_string(), AddressError::InvalidTransport),
        ("/nonsense/1".to_string(), AddressError::InvalidTransport),
        ("p2p".to_string(), AddressError::InvalidTransport),
        (format!("/ip4/127.0.0.1/ipfs/{RELAY}"), AddressError::InvalidTransport),
        ("/ip4/127.0.0.1/tcp/1/p2p-circuit".to_string(), AddressError::InvalidTransport),
        ("/ip4/127.0.0.1/tcp/1/p2p".to_string(), AddressError::InvalidPeerIdentifier),
        ("/ip4/127.0.0.1/tcp/1/p2p/nobody".to_string(), AddressError::InvalidPeerIdentifier),
        ("/ip4/127.0.0.1/tcp/1/circuit".to_string(), AddressError::MisplacedCircuit),
        (format!("/ip4/127.0.0.1/tcp/1/p2p/{RELAY}/circuit/circuit"), AddressError::MisplacedCircuit),
        (format!("/ip4/127.0.0.1/tcp/1/p2p/{RELAY}/tcp/2"), AddressError::UnexpectedComponent),
        (format!("/ip4/127.0.0.1/tcp/1/p2p/{RELAY}/"), AddressError::UnexpectedComponent),
    ];
    for (text, error) in cases {
        assert_eq!(Multiaddress::parse(&text).err(), Some(error), "{text}");
    }
}

#[test]
fn peer_only_address_is_an_address() {
    let address = Multiaddress::parse(&format!("/p2p/{TARGET}")).expect("an address");
    assert_eq!(address.transport(), "");
    assert_eq!(address.target_peer().unwrap().as_text(), TARGET);
}
