use mesh_ai_node::address::Multiaddress;
use mesh_ai_node::backend::interpret_reply;
use mesh_ai_node::backend::BackendError;
use mesh_ai_node::controller::client_prompt;
use mesh_ai_node::controller::ephemeral_listen_address;
use mesh_ai_node::controller::ExitStatus;
use mesh_ai_node::controller::NodeAction;
use mesh_ai_node::controller::NodeController;
use mesh_ai_node::controller::NodeEvent;
use mesh_ai_node::controller::Notice;
use mesh_ai_node::controller::PingReport;
use mesh_ai_node::controller::RelayReport;
use mesh_ai_node::error::AddressError;
use mesh_ai_node::error::RequestError;
use mesh_ai_node::exchange::Resolution;
use mesh_ai_node::identify::PeerInfo;
use mesh_ai_node::identity::conclude_handshake;
use mesh_ai_node::identity::HandshakeReport;
use mesh_ai_node::identity::PeerIdentifier;
use mesh_ai_node::message::PromptRequest;
use mesh_ai_node::message::PromptResponse;
use mesh_ai_node::relay::RelayReservation;
use mesh_ai_node::relay::RelayState;
use mesh_ai_node::relay::ReservationLimits;

const P_A: &str = "12D3KooWRNw2pJC9748Fmq4WNV27HoSTcX3r37132FLkQMrbKAiC";
const P_B: &str = "QmcgpsyWgH8Y8ajJz1Cu72KnS5uo2Aa2LpzU7kinSupNKC";
const P_C: &str = "QmNnooDu7bfjPFoTZYxMNLWUQJyrVwtbZg5gBMjTezGAJN";
const P_R: &str = "12D3KooWDpJ7As7BWAwRMfu1VU2WCqNjvq387JEYKDBj4kx6nXTN";

fn peer(text: &str) -> PeerIdentifier {
    PeerIdentifier::parse(text).expect("a peer identifier")
}

fn address(text: &str) -> Multiaddress {
    Multiaddress::parse(text).expect("an address")
}

fn server() -> NodeController {
    NodeController::new(None, None, None).expect("a controller")
}

fn client(target: &str) -> NodeController {
    NodeController::new(None, Some(address(target)), None).expect("a controller")
}

fn relay_client() -> NodeController {
    let relay = address(&format!("/ip4/127.0.0.1/tcp/4001/p2p/{P_R}"));
    NodeController::new(Some(relay), None, None).expect("a controller")
}

fn until(expiry: u64) -> RelayReservation {
    RelayReservation {
        expiry,
        limits: ReservationLimits { max_circuit_seconds: 120, max_circuit_bytes: 1 << 17 },
    }
}

#[test]
fn server_without_relay_listens_directly() {
    let node = server();
    assert_eq!(node.start(), vec![NodeAction::ListenDirect]);
    assert_eq!(ephemeral_listen_address(), "/ip4/0.0.0.0/tcp/0");
    assert!(Multiaddress::parse(ephemeral_listen_address()).is_ok());
    assert_eq!(node.finished(), None);
    assert!(!node.prompt_sent());
}

#[test]
fn relay_client_dials_its_relay_first() {
    let node = relay_client();
    let relay = address(&format!("/ip4/127.0.0.1/tcp/4001/p2p/{P_R}"));
    assert_eq!(node.start(), vec![NodeAction::Dial(relay)]);
    assert_eq!(node.relay_state(), RelayState::Idle);
}

#[test]
fn client_dials_its_target() {
    let text = format!("/ip4/127.0.0.1/tcp/4001/p2p/{P_B}");
    let node = client(&text);
    assert_eq!(node.start(), vec![NodeAction::ListenDirect, NodeAction::Dial(address(&text))]);
}

#[test]
fn target_without_peer_is_refused_before_any_dial() {
    let made = NodeController::new(None, Some(address("/ip4/127.0.0.1/tcp/4001")), None);
    assert_eq!(made.err(), Some(AddressError::MissingPeerIdentifier));
}

#[test]
fn direct_prompt_exchange_ends_in_success() {
    let b_address = format!("/ip4/127.0.0.1/tcp/40123/p2p/{P_B}");
    let mut b = server();
    assert_eq!(b.start(), vec![NodeAction::ListenDirect]);
    let mut a = client(&b_address);
    assert_eq!(a.start(), vec![NodeAction::ListenDirect, NodeAction::Dial(address(&b_address))]);

    let remote = conclude_handshake(HandshakeReport::Completed(peer(P_B)), Some(&peer(P_B)));
    assert_eq!(remote, Ok(peer(P_B)));
    let sent = a.handle(1, NodeEvent::ConnectionEstablished { peer: peer(P_B) });
    assert_eq!(
        sent,
        vec![NodeAction::SendRequest {
            handle: 0,
            peer: peer(P_B),
            payload: PromptRequest { prompt: "whats 1 + 1".to_string() },
        }]
    );
    assert!(a.prompt_sent());

    assert_eq!(b.handle(1, NodeEvent::ConnectionEstablished { peer: peer(P_A) }), vec![]);
    let asked = b.handle(
        2,
        NodeEvent::RequestReceived {
            peer: peer(P_A),
            request: PromptRequest { prompt: "whats 1 + 1".to_string() },
        },
    );
    assert_eq!(
        asked,
        vec![NodeAction::CallBackend { channel: 0, prompt: "whats 1 + 1".to_string() }]
    );
    let outcome = interpret_reply(200, b"{\"response\":\"2\",\"done\":true}");
    let answered = b.handle(3, NodeEvent::BackendFinished { channel: 0, outcome });
    assert_eq!(
        answered,
        vec![NodeAction::SendResponse {
            channel: 0,
            response: PromptResponse { response: "2".to_string() },
        }]
    );
    assert_eq!(b.finished(), None);

    let done = a.handle(
        4,
        NodeEvent::ResponseReceived {
            handle: 0,
            response: PromptResponse { response: "2".to_string() },
        },
    );
    assert_eq!(
        done,
        vec![
            NodeAction::Resolved(Resolution {
                id: 0,
                peer: peer(P_B),
                outcome: Ok(PromptResponse { response: "2".to_string() }),
            }),
            NodeAction::Exit(ExitStatus::Success),
        ]
    );
    assert_eq!(a.finished(), Some(ExitStatus::Success));
}

#[test]
fn relayed_listener_sees_the_dialing_peer() {
    let mut a = relay_client();
    assert_eq!(a.handle(1, NodeEvent::ConnectionEstablished { peer: peer(P_C) }), vec![]);
    assert_eq!(a.relay_state(), RelayState::Idle);
    let listen = a.handle(2, NodeEvent::ConnectionEstablished { peer: peer(P_R) });
    let circuit = address(&format!("/ip4/127.0.0.1/tcp/4001/p2p/{P_R}/circuit"));
    assert_eq!(listen, vec![NodeAction::ListenViaRelay(circuit)]);
    assert_eq!(a.relay_state(), RelayState::Reserving);
    assert_eq!(
        a.handle(3, NodeEvent::RelayListenOutcome { accepted: true }),
        vec![NodeAction::Surface(Notice::ListeningViaRelay)]
    );
    let granted = RelayReport::ReservationAccepted(until(3_600));
    assert_eq!(
        a.handle(4, NodeEvent::Relay(granted)),
        vec![NodeAction::Surface(Notice::Relay(granted))]
    );
    assert_eq!(
        a.relay_state(),
        RelayState::Reserved { reservation: until(3_600), renewing: false }
    );
    assert!(a.relay_state().is_usable(5));

    let dialed = address(&format!("/ip4/127.0.0.1/tcp/4001/p2p/{P_R}/circuit/p2p/{P_A}"));
    assert_eq!(dialed.relay_peer(), Some(peer(P_R)));
    assert_eq!(dialed.target_peer(), Ok(peer(P_A)));
    assert!(dialed.is_relayed());
    let inbound = conclude_handshake(HandshakeReport::Completed(peer(P_C)), None);
    assert_eq!(inbound, Ok(peer(P_C)));
    assert_eq!(a.handle(6, NodeEvent::ConnectionEstablished { peer: peer(P_C) }), vec![]);
    assert_eq!(
        a.handle(7, NodeEvent::Relay(RelayReport::CircuitEstablished)),
        vec![NodeAction::Surface(Notice::Relay(RelayReport::CircuitEstablished))]
    );
    let asked = a.handle(
        8,
        NodeEvent::RequestReceived { peer: peer(P_C), request: PromptRequest::new("hello") },
    );
    assert_eq!(asked, vec![NodeAction::CallBackend { channel: 0, prompt: "hello".to_string() }]);
}

#[test]
fn node_listens_through_its_relay_only_once() {
    let mut a = relay_client();
    assert_eq!(a.handle(1, NodeEvent::ConnectionEstablished { peer: peer(P_R) }).len(), 1);
    assert_eq!(a.handle(2, NodeEvent::ConnectionEstablished { peer: peer(P_R) }), vec![]);
    a.handle(3, NodeEvent::Relay(RelayReport::ReservationAccepted(until(100))));
    assert_eq!(a.handle(4, NodeEvent::ConnectionEstablished { peer: peer(P_R) }), vec![]);
}

#[test]
fn failed_relay_listen_can_be_tried_again() {
    let mut a = relay_client();
    assert_eq!(a.handle(1, NodeEvent::ConnectionEstablished { peer: peer(P_R) }).len(), 1);
    assert_eq!(
        a.handle(2, NodeEvent::RelayListenOutcome { accepted: false }),
        vec![NodeAction::Surface(Notice::RelayListenFailed)]
    );
    assert_eq!(a.relay_state(), RelayState::Idle);
    assert_eq!(a.handle(3, NodeEvent::ConnectionEstablished { peer: peer(P_R) }).len(), 1);
    assert_eq!(
        a.handle(4, NodeEvent::Relay(RelayReport::ReservationRefused)),
        vec![NodeAction::Surface(Notice::Relay(RelayReport::ReservationRefused))]
    );
    assert_eq!(a.relay_state(), RelayState::Idle);
}

#[test]
fn relay_address_that_ends_in_a_marker_cannot_be_listened_on() {
    let relay = address(&format!("/ip4/127.0.0.1/tcp/4001/p2p/{P_R}/circuit"));
    let mut a = NodeController::new(Some(relay), None, None).unwrap();
    assert_eq!(
        a.handle(1, NodeEvent::ConnectionEstablished { peer: peer(P_R) }),
        vec![NodeAction::Surface(Notice::RelayListenFailed)]
    );
    assert_eq!(a.relay_state(), RelayState::Idle);
}

#[test]
fn failing_backend_still_yields_a_response() {
    let mut b = server();
    b.handle(1, NodeEvent::RequestReceived { peer: peer(P_A), request: PromptRequest::new("hi") });
    let outcome = interpret_reply(500, b"oops");
    assert_eq!(outcome, Err(BackendError::Status(500)));
    assert_eq!(
        b.handle(2, NodeEvent::BackendFinished { channel: 0, outcome }),
        vec![NodeAction::SendResponse {
            channel: 0,
            response: PromptResponse {
                response: "Error calling Ollama: 500 Internal Server Error".to_string(),
            },
        }]
    );
    assert_eq!(b.finished(), None);
}

#[test]
fn lapsed_reservation_is_reported_and_leaves_the_node_unreachable() {
    let mut a = relay_client();
    a.handle(1, NodeEvent::ConnectionEstablished { peer: peer(P_R) });
    a.handle(2, NodeEvent::Relay(RelayReport::ReservationAccepted(until(1_000))));
    assert_eq!(a.handle(939, NodeEvent::Tick), vec![]);
    assert_eq!(a.handle(940, NodeEvent::Tick), vec![NodeAction::RenewReservation]);
    assert_eq!(a.handle(999, NodeEvent::Tick), vec![]);
    assert!(a.relay_state().is_usable(999));
    assert!(!a.relay_state().is_usable(1_000));
    assert_eq!(
        a.handle(1_000, NodeEvent::Tick),
        vec![NodeAction::Surface(Notice::ReservationLapsed)]
    );
    assert_eq!(a.relay_state(), RelayState::Expired);
    assert_eq!(a.handle(1_001, NodeEvent::Tick), vec![]);
    assert!(!a.relay_state().is_usable(1_001));
    let again = a.handle(1_002, NodeEvent::ConnectionEstablished { peer: peer(P_R) });
    assert_eq!(again.len(), 1);
    assert_eq!(a.relay_state(), RelayState::Reserving);
}

#[test]
fn renewed_reservation_does_not_lapse() {
    let mut a = relay_client();
    a.handle(1, NodeEvent::ConnectionEstablished { peer: peer(P_R) });
    a.handle(2, NodeEvent::Relay(RelayReport::ReservationAccepted(until(1_000))));
    assert_eq!(a.handle(980, NodeEvent::Tick), vec![NodeAction::RenewReservation]);
    a.handle(990, NodeEvent::Relay(RelayReport::ReservationAccepted(until(2_000))));
    assert_eq!(a.handle(1_000, NodeEvent::Tick), vec![]);
    assert!(a.relay_state().is_usable(1_000));
    assert_eq!(a.handle(1_939, NodeEvent::Tick), vec![]);
    assert_eq!(a.handle(1_950, NodeEvent::Tick), vec![NodeAction::RenewReservation]);
    assert_eq!(a.handle(1_999, NodeEvent::Tick), vec![]);
    assert_eq!(
        a.handle(2_000, NodeEvent::Tick),
        vec![NodeAction::Surface(Notice::ReservationLapsed)]
    );
}

#[test]
fn prompt_is_sent_once_per_run() {
    let mut a = client(&format!("/ip4/127.0.0.1/tcp/4001/p2p/{P_B}"));
    assert_eq!(a.handle(1, NodeEvent::ConnectionEstablished { peer: peer(P_C) }), vec![]);
    assert!(!a.prompt_sent());
    assert_eq!(a.handle(2, NodeEvent::ConnectionEstablished { peer: peer(P_B) }).len(), 1);
    assert_eq!(a.handle(3, NodeEvent::ConnectionEstablished { peer: peer(P_B) }), vec![]);
    assert_eq!(a.handle(4, NodeEvent::ConnectionClosed { peer: peer(P_C) }), vec![]);
    assert_eq!(a.handle(5, NodeEvent::ConnectionEstablished { peer: peer(P_B) }), vec![]);
    assert_eq!(client_prompt(), "whats 1 + 1");
}

#[test]
fn prompt_goes_to_the_last_peer_of_a_relayed_target() {
    let mut a = client(&format!("/ip4/127.0.0.1/tcp/4001/p2p/{P_R}/circuit/p2p/{P_B}"));
    assert_eq!(a.handle(1, NodeEvent::ConnectionEstablished { peer: peer(P_R) }), vec![]);
    let sent = a.handle(2, NodeEvent::ConnectionEstablished { peer: peer(P_B) });
    assert_eq!(
        sent,
        vec![NodeAction::SendRequest {
            handle: 0,
            peer: peer(P_B),
            payload: PromptRequest::new("whats 1 + 1"),
        }]
    );
}

#[test]
fn second_backend_return_sends_nothing() {
    let mut b = server();
    b.handle(1, NodeEvent::RequestReceived { peer: peer(P_A), request: PromptRequest::new("hi") });
    let first = b.handle(2, NodeEvent::BackendFinished { channel: 0, outcome: Ok("a".to_string()) });
    assert_eq!(first.len(), 1);
    assert_eq!(
        b.handle(3, NodeEvent::BackendFinished { channel: 0, outcome: Ok("b".to_string()) }),
        vec![NodeAction::Surface(Notice::ChannelNotOpen)]
    );
    assert_eq!(
        b.handle(4, NodeEvent::BackendFinished { channel: 9, outcome: Ok("c".to_string()) }),
        vec![NodeAction::Surface(Notice::ChannelNotOpen)]
    );
}

#[test]
fn closed_connection_fails_the_pending_request_and_counts_open_channels() {
    let mut node = client(&format!("/ip4/127.0.0.1/tcp/4001/p2p/{P_B}"));
    node.handle(1, NodeEvent::ConnectionEstablished { peer: peer(P_B) });
    node.handle(2, NodeEvent::RequestReceived { peer: peer(P_B), request: PromptRequest::new("x") });
    node.handle(3, NodeEvent::RequestReceived { peer: peer(P_B), request: PromptRequest::new("y") });
    node.handle(4, NodeEvent::RequestReceived { peer: peer(P_C), request: PromptRequest::new("z") });
    let actions = node.handle(5, NodeEvent::ConnectionClosed { peer: peer(P_B) });
    assert_eq!(
        actions,
        vec![
            NodeAction::Resolved(Resolution {
                id: 0,
                peer: peer(P_B),
                outcome: Err(RequestError::StreamFailed),
            }),
            NodeAction::Surface(Notice::ChannelsAbandoned(2)),
        ]
    );
    assert_eq!(
        node.handle(6, NodeEvent::BackendFinished { channel: 0, outcome: Ok("late".to_string()) }),
        vec![NodeAction::Surface(Notice::ChannelNotOpen)]
    );
    assert_eq!(
        node.handle(7, NodeEvent::BackendFinished { channel: 2, outcome: Ok("ok".to_string()) }),
        vec![NodeAction::SendResponse { channel: 2, response: PromptResponse::new("ok") }]
    );
    assert_eq!(
        node.handle(8, NodeEvent::ResponseReceived { handle: 0, response: PromptResponse::new("2") }),
        vec![NodeAction::Surface(Notice::UnexpectedResponse)]
    );
    assert_eq!(node.finished(), None);
}

#[test]
fn failed_request_is_resolved_with_its_error() {
    let mut node = client(&format!("/ip4/127.0.0.1/tcp/4001/p2p/{P_B}"));
    node.handle(1, NodeEvent::ConnectionEstablished { peer: peer(P_B) });
    assert_eq!(
        node.handle(2, NodeEvent::RequestFailed { handle: 0, error: RequestError::Decode }),
        vec![NodeAction::Resolved(Resolution {
            id: 0,
            peer: peer(P_B),
            outcome: Err(RequestError::Decode),
        })]
    );
    assert_eq!(
        node.handle(3, NodeEvent::RequestFailed { handle: 0, error: RequestError::Decode }),
        vec![]
    );
}

#[test]
fn request_with_a_maximum_wait_times_out() {
    let target = address(&format!("/ip4/127.0.0.1/tcp/4001/p2p/{P_B}"));
    let mut node = NodeController::new(None, Some(target), Some(30)).unwrap();
    node.handle(100, NodeEvent::ConnectionEstablished { peer: peer(P_B) });
    assert_eq!(node.handle(129, NodeEvent::Tick), vec![]);
    assert_eq!(
        node.handle(130, NodeEvent::Tick),
        vec![NodeAction::Resolved(Resolution {
            id: 0,
            peer: peer(P_B),
            outcome: Err(RequestError::Timeout),
        })]
    );
    assert_eq!(node.handle(131, NodeEvent::Tick), vec![]);
}

#[test]
fn request_without_a_maximum_wait_never_times_out() {
    let mut node = client(&format!("/ip4/127.0.0.1/tcp/4001/p2p/{P_B}"));
    node.handle(100, NodeEvent::ConnectionEstablished { peer: peer(P_B) });
    assert_eq!(node.handle(u64::MAX, NodeEvent::Tick), vec![]);
}

#[test]
fn dial_failure_ends_a_client_and_not_a_server() {
    let mut a = client(&format!("/ip4/127.0.0.1/tcp/4001/p2p/{P_B}"));
    assert_eq!(
        a.handle(1, NodeEvent::OutgoingConnectionError),
        vec![NodeAction::Exit(ExitStatus::Failure)]
    );
    assert_eq!(a.finished(), Some(ExitStatus::Failure));
    let mut b = server();
    assert_eq!(
        b.handle(1, NodeEvent::OutgoingConnectionError),
        vec![NodeAction::Surface(Notice::DialFailed)]
    );
    assert_eq!(b.finished(), None);
}

#[test]
fn finished_run_does_nothing_more() {
    let mut a = client(&format!("/ip4/127.0.0.1/tcp/4001/p2p/{P_B}"));
    a.handle(1, NodeEvent::OutgoingConnectionError);
    assert_eq!(a.handle(2, NodeEvent::ConnectionEstablished { peer: peer(P_B) }), vec![]);
    assert_eq!(a.handle(3, NodeEvent::Tick), vec![]);
    assert_eq!(a.handle(4, NodeEvent::Ping(PingReport::Failed)), vec![]);
    assert!(!a.prompt_sent());
}

#[test]
fn telemetry_is_surfaced() {
    let mut b = server();
    assert_eq!(
        b.handle(1, NodeEvent::Ping(PingReport::RoundTrip(12))),
        vec![NodeAction::Surface(Notice::Ping(PingReport::RoundTrip(12)))]
    );
    assert_eq!(
        b.handle(2, NodeEvent::Ping(PingReport::Failed)),
        vec![NodeAction::Surface(Notice::Ping(PingReport::Failed))]
    );
    assert_eq!(
        b.handle(3, NodeEvent::NewListenAddress),
        vec![NodeAction::Surface(Notice::Listening)]
    );
    assert_eq!(b.finished(), None);
}

#[test]
fn identified_peer_is_remembered() {
    let mut b = server();
    let one = address("/ip4/10.0.0.1/tcp/4001");
    let info = PeerInfo {
        protocols: vec!["/mesh-ai/1.0.0".to_string()],
        addresses: vec![one.clone(), one.clone()],
    };
    assert_eq!(
        b.handle(1, NodeEvent::Identified { peer: peer(P_A), info }),
        vec![NodeAction::Surface(Notice::Identified(true))]
    );
    let other = PeerInfo { protocols: vec!["/other/1".to_string()], addresses: vec![] };
    assert_eq!(
        b.handle(2, NodeEvent::Identified { peer: peer(P_C), info: other }),
        vec![NodeAction::Surface(Notice::Identified(false))]
    );
    assert_eq!(b.addresses_of(&peer(P_A)), vec![one]);
    assert!(b.addresses_of(&peer(P_C)).is_empty());
}

#[test]
fn abandoned_channel_is_counted_and_takes_no_response() {
    let mut b = server();
    b.handle(1, NodeEvent::RequestReceived { peer: peer(P_A), request: PromptRequest::new("hi") });
    assert_eq!(
        b.handle(2, NodeEvent::ChannelAbandoned { channel: 0 }),
        vec![NodeAction::Surface(Notice::ChannelsAbandoned(1))]
    );
    assert_eq!(b.handle(3, NodeEvent::ChannelAbandoned { channel: 0 }), vec![]);
    assert_eq!(
        b.handle(4, NodeEvent::BackendFinished { channel: 0, outcome: Ok("late".to_string()) }),
        vec![NodeAction::Surface(Notice::ChannelNotOpen)]
    );
}
