use mesh_ai_node::address::Multiaddress;
use mesh_ai_node::identify::AddressBook;
use mesh_ai_node::identify::PeerInfo;
use mesh_ai_node::identity::PeerIdentifier;
use mesh_ai_node::message::protocol_id;

fn peer_a() -> PeerIdentifier {
    PeerIdentifier::parse("12D3KooWDpJ7As7BWAwRMfu1VU2WCqNjvq387JEYKDBj4kx6nXTN").unwrap()
}

fn peer_b() -> PeerIdentifier {
    PeerIdentifier::parse("QmcgpsyWgH8Y8ajJz1Cu72KnS5uo2Aa2LpzU7kinSupNKC").unwrap()
}

fn address(text: &str) -> Multiaddress {
    Multiaddress::parse(text).expect("an address")
}

#[test]
fn peer_info_tells_the_protocols() {
    let info = PeerInfo {
        protocols: vec!["/ipfs/ping/1.0.0".to_string(), "/mesh-ai/1.0.0".to_string()],
        addresses: vec![],
    };
    assert_eq!(protocol_id(), "/mesh-ai/1.0.0");
    assert!(info.supports(protocol_id()));
    assert!(info.supports("/ipfs/ping/1.0.0"));
    assert!(!info.supports("/mesh-ai/2.0.0"));
    assert!(!PeerInfo { protocols: vec![], addresses: vec![] }.supports(protocol_id()));
}

#[test]
fn book_holds_a_set_of_addresses_for_each_peer() {
    let mut book = AddressBook::new();
    let one = address("/ip4/10.0.0.1/tcp/4001");
    let two = address("/ip4/10.0.0.2/tcp/4001");
    assert!(book.addresses_of(&peer_a()).is_empty());
    book.record(&peer_a(), &one);
    book.record(&peer_a(), &one);
    book.record(&peer_b(), &two);
    assert!(book.knows(&peer_a(), &one));
    assert!(!book.knows(&peer_a(), &two));
    assert!(book.knows(&peer_b(), &two));
    assert_eq!(book.addresses_of(&peer_a()), vec![one.clone()]);
    assert_eq!(book.addresses_of(&peer_b()), vec![two.clone()]);
    book.record_all(&peer_a(), &vec![two.clone(), one.clone(), two.clone()]);
    assert_eq!(book.addresses_of(&peer_a()), vec![one, two.clone()]);
    assert_eq!(book.addresses_of(&peer_b()), vec![two]);
}
