use mesh_ai_node::error::ChannelError;
use mesh_ai_node::error::RequestError;
use mesh_ai_node::exchange::PendingRequests;
use mesh_ai_node::exchange::ResponseChannels;
use mesh_ai_node::identity::PeerIdentifier;
use mesh_ai_node::message::PromptRequest;
use mesh_ai_node::message::PromptResponse;

fn peer_a() -> PeerIdentifier {
    PeerIdentifier::parse("12D3KooWDpJ7As7BWAwRMfu1VU2WCqNjvq387JEYKDBj4kx6nXTN").unwrap()
}

fn peer_b() -> PeerIdentifier {
    PeerIdentifier::parse("QmcgpsyWgH8Y8ajJz1Cu72KnS5uo2Aa2LpzU7kinSupNKC").unwrap()
}

#[test]
fn handles_are_given_in_order() {
    let mut table = PendingRequests::new();
    assert_eq!(table.len(), 0);
    assert_eq!(table.send_request(peer_a(), PromptRequest::new("one"), None), Some(0));
    assert_eq!(table.send_request(peer_b(), PromptRequest::new("two"), Some(50)), Some(1));
    assert_eq!(table.send_request(peer_a(), PromptRequest::new("three"), None), Some(2));
    assert_eq!(table.len(), 3);
    assert!(table.is_pending(0) && table.is_pending(1) && table.is_pending(2));
    assert!(!table.is_pending(3));
}

#[test]
fn request_resolves_exactly_once() {
    let mut table = PendingRequests::new();
    let handle = table.send_request(peer_a(), PromptRequest::new("whats 1 + 1"), None).unwrap();
    let end = table.resolve(handle, Ok(PromptResponse::new("2"))).expect("the pending request");
    assert_eq!(end.id, handle);
    assert_eq!(end.peer, peer_a());
    assert_eq!(end.outcome, Ok(PromptResponse::new("2")));
    assert!(!table.is_pending(handle));
    assert_eq!(table.resolve(handle, Ok(PromptResponse::new("3"))), None);
    assert_eq!(table.resolve(handle, Err(RequestError::Timeout)), None);
    assert_eq!(table.len(), 0);
}

#[test]
fn resolved_handle_is_not_given_again() {
    let mut table = PendingRequests::new();
    let first = table.send_request(peer_a(), PromptRequest::new("one"), None).unwrap();
    assert!(table.resolve(first, Err(RequestError::Decode)).is_some());
    let second = table.send_request(peer_a(), PromptRequest::new("two"), None).unwrap();
    assert_ne!(first, second);
    assert!(!table.is_pending(first));
    assert!(table.is_pending(second));
}

#[test]
fn resolve_leaves_other_requests_pending() {
    let mut table = PendingRequests::new();
    let a = table.send_request(peer_a(), PromptRequest::new("one"), None).unwrap();
    let b = table.send_request(peer_b(), PromptRequest::new("two"), None).unwrap();
    let c = table.send_request(peer_a(), PromptRequest::new("three"), None).unwrap();
    let end = table.resolve(b, Err(RequestError::Decode)).unwrap();
    assert_eq!(end.peer, peer_b());
    assert_eq!(end.outcome, Err(RequestError::Decode));
    assert!(table.is_pending(a) && table.is_pending(c));
    assert_eq!(table.len(), 2);
}

#[test]
fn closed_connection_fails_its_requests_with_stream_failed() {
    let mut table = PendingRequests::new();
    let a = table.send_request(peer_a(), PromptRequest::new("one"), None).unwrap();
    let b = table.send_request(peer_b(), PromptRequest::new("two"), None).unwrap();
    let c = table.send_request(peer_a(), PromptRequest::new("three"), None).unwrap();
    let ends = table.connection_closed(&peer_a());
    assert_eq!(ends.len(), 2);
    assert_eq!(ends[0].id, a);
    assert_eq!(ends[1].id, c);
    for end in &ends {
        assert_eq!(end.peer, peer_a());
        assert_eq!(end.outcome, Err(RequestError::StreamFailed));
    }
    assert!(table.is_pending(b));
    assert_eq!(table.len(), 1);
    assert!(table.connection_closed(&peer_a()).is_empty());
}

#[test]
fn deadline_fails_request_with_timeout() {
    let mut table = PendingRequests::new();
    let never = table.send_request(peer_a(), PromptRequest::new("one"), None).unwrap();
    let soon = table.send_request(peer_a(), PromptRequest::new("two"), Some(100)).unwrap();
    let late = table.send_request(peer_b(), PromptRequest::new("three"), Some(200)).unwrap();
    assert!(table.expire(99).is_empty());
    let ends = table.expire(100);
    assert_eq!(ends.len(), 1);
    assert_eq!(ends[0].id, soon);
    assert_eq!(ends[0].outcome, Err(RequestError::Timeout));
    assert!(table.is_pending(never) && table.is_pending(late));
    let ends = table.expire(u64::MAX);
    assert_eq!(ends.len(), 1);
    assert_eq!(ends[0].id, late);
    assert!(table.is_pending(never));
}

#[test]
fn exactly_one_response_is_taken_per_channel() {
    let mut channels = ResponseChannels::new();
    let channel = channels.accept_request(peer_a(), PromptRequest::new("whats 1 + 1")).unwrap();
    assert!(channels.is_open(channel));
    let sent = channels.send_response(channel, PromptResponse::new("2")).expect("an open channel");
    assert_eq!(sent.id, channel);
    assert_eq!(sent.peer, peer_a());
    assert_eq!(sent.outcome, Ok(PromptResponse::new("2")));
    assert!(!channels.is_open(channel));
    assert_eq!(channels.answered(), 1);
    assert_eq!(
        channels.send_response(channel, PromptResponse::new("2")),
        Err(ChannelError::NotOpen)
    );
    assert_eq!(channels.answered(), 1);
    assert_eq!(channels.abandoned(), 0);
}

#[test]
fn response_on_unknown_channel_is_refused() {
    let mut channels = ResponseChannels::new();
    assert_eq!(
        channels.send_response(7, PromptResponse::new("2")),
        Err(ChannelError::NotOpen)
    );
    assert_eq!(channels.answered(), 0);
}

#[test]
fn abandoned_channels_are_counted() {
    let mut channels = ResponseChannels::new();
    let a = channels.accept_request(peer_a(), PromptRequest::new("one")).unwrap();
    let b = channels.accept_request(peer_b(), PromptRequest::new("two")).unwrap();
    let c = channels.accept_request(peer_a(), PromptRequest::new("three")).unwrap();
    let d = channels.accept_request(peer_b(), PromptRequest::new("four")).unwrap();
    assert_eq!(channels.connection_closed(&peer_a()), 2);
    assert_eq!(channels.abandoned(), 2);
    assert!(!channels.is_open(a) && !channels.is_open(c));
    assert!(channels.abandon(b));
    assert!(!channels.abandon(b));
    assert_eq!(channels.abandoned(), 3);
    assert!(channels.send_response(d, PromptResponse::new("4")).is_ok());
    assert_eq!(channels.answered(), 1);
    assert_eq!(
        channels.send_response(a, PromptResponse::new("1")),
        Err(ChannelError::NotOpen)
    );
    assert_eq!(channels.answered() + channels.abandoned(), 4);
}
