//! The node controller: one decision per event.
//!
//! The controller owns the state of a run and is driven from outside: the
//! loop that holds the sockets hands each event in, together with the time,
//! and carries the returned actions out. At startup the node dials its relay
//! or listens directly; towards its target it sends exactly one prompt; for
//! every request it accepts it has the backend called and sends exactly one
//! response; it ends its run when the one expected response has arrived, or
//! when the dial of its target fails.
//!
//! Times are whole seconds on the clock of the loop outside; expiries and
//! deadlines are times on the same clock.

use vstd::prelude::*;

use crate::address::first_peer;
use crate::address::last_peer;
use crate::address::with_circuit_spec;
use crate::address::AddressView;
use crate::address::Multiaddress;
use crate::backend::line_for;
use crate::backend::outcome_view;
use crate::backend::response_for;
use crate::backend::response_text;
use crate::backend::BackendError;
use crate::error::AddressError;
use crate::error::RequestError;
use crate::exchange::abandon_spec;
use crate::exchange::channels_wf;
use crate::exchange::accept_spec;
use crate::exchange::failed_with;
use crate::exchange::is_pending;
use crate::exchange::lemma_none_leaves;
use crate::exchange::leaving;
use crate::exchange::raised;
use crate::exchange::resolution_views;
use crate::exchange::send_response_spec;
use crate::exchange::staying;
use crate::exchange::table_wf;
use crate::exchange::ChannelsView;
use crate::exchange::PendingRequests;
use crate::exchange::PendingView;
use crate::exchange::Resolution;
use crate::exchange::ResolutionView;
use crate::exchange::ResponseChannels;
use crate::exchange::Rule;
use crate::exchange::TableView;
use crate::identify::address_views;
use crate::identify::known_addresses;
use crate::identify::with_addresses;
use crate::identify::AddressBook;
use crate::identify::PeerInfo;
use crate::identify::Reach;
use crate::identity::PeerIdentifier;
use crate::message::protocol_id;
use crate::message::protocol_id_text;
use crate::message::PromptRequest;
use crate::message::PromptResponse;
use crate::relay::advance_spec;
use crate::relay::begin_spec;
use crate::relay::granted_spec;
use crate::relay::refused_spec;
use crate::relay::RelayLink;
use crate::relay::renew_spec;
use crate::relay::RENEWAL_MARGIN;
use crate::relay::RelayReservation;
use crate::relay::RelayState;
use crate::text::texts;

verus! {

/// How a run ends.
#[derive(Debug, Clone, Copy, PartialEq, Eq, Structural)]
pub enum ExitStatus {
    /// The expected response arrived.
    Success,
    /// The dial of the target failed.
    Failure,
}

/// What the liveness probe of a connection reported.
#[derive(Debug, Clone, Copy, PartialEq, Eq, Structural)]
pub enum PingReport {
    /// The probe came back after this many milliseconds.
    RoundTrip(u64),
    /// The probe did not come back in time.
    Failed,
}

/// What the relay client reported.
#[derive(Debug, Clone, Copy, PartialEq, Eq, Structural)]
pub enum RelayReport {
    /// The relay granted or renewed this reservation.
    ReservationAccepted(RelayReservation),
    /// The relay refused the reservation.
    ReservationRefused,
    /// A circuit through the relay was set up.
    CircuitEstablished,
}

/// Something worth reporting that asks for no further action.
#[derive(Debug, Clone, Copy, PartialEq, Eq, Structural)]
pub enum Notice {
    /// The node listens on a new address.
    Listening,
    /// The node listens through its relay.
    ListeningViaRelay,
    /// The node could not listen through its relay.
    RelayListenFailed,
    /// The reservation with the relay has lapsed: no circuit reaches the
    /// node until it is reserved anew.
    ReservationLapsed,
    /// The backend finished for a channel that is not open. Nothing is sent.
    ChannelNotOpen,
    /// A request could not be given a channel and was abandoned.
    RequestAbandoned,
    /// This many open channels were abandoned unanswered.
    ChannelsAbandoned(u64),
    /// A response arrived that answers no pending request.
    UnexpectedResponse,
    /// An outgoing connection failed. The node goes on serving.
    DialFailed,
    /// A liveness report.
    Ping(PingReport),
    /// A report of the relay client.
    Relay(RelayReport),
    /// A peer told its protocols and addresses; whether it speaks the
    /// protocol of this node.
    Identified(bool),
}

/// What happened outside.
#[derive(Debug, PartialEq, Eq)]
pub enum NodeEvent {
    /// A connection with `peer` is up.
    ConnectionEstablished { peer: PeerIdentifier },
    /// The connection with `peer` is gone.
    ConnectionClosed { peer: PeerIdentifier },
    /// The node listens on a new address.
    NewListenAddress,
    /// How the attempt to listen through the relay went.
    RelayListenOutcome { accepted: bool },
    /// `peer` sent a request.
    RequestReceived { peer: PeerIdentifier, request: PromptRequest },
    /// The backend call for `channel` returned.
    BackendFinished { channel: u64, outcome: Result<String, BackendError> },
    /// The stream of `channel` was given up before a response was sent.
    ChannelAbandoned { channel: u64 },
    /// The response to the request with this handle arrived.
    ResponseReceived { handle: u64, response: PromptResponse },
    /// The request with this handle failed.
    RequestFailed { handle: u64, error: RequestError },
    /// An outgoing connection could not be set up.
    OutgoingConnectionError,
    /// A liveness report.
    Ping(PingReport),
    /// A report of the relay client.
    Relay(RelayReport),
    /// `peer` told its protocols and addresses.
    Identified { peer: PeerIdentifier, info: PeerInfo },
    /// Time has passed.
    Tick,
}

/// An event as a mathematical value.
pub enum EventView {
    ConnectionEstablished { peer: Seq<char> },
    ConnectionClosed { peer: Seq<char> },
    NewListenAddress,
    RelayListenOutcome { accepted: bool },
    RequestReceived { peer: Seq<char>, prompt: Seq<char> },
    BackendFinished { channel: u64, outcome: Result<Seq<char>, BackendError> },
    ChannelAbandoned { channel: u64 },
    ResponseReceived { handle: u64, response: Seq<char> },
    RequestFailed { handle: u64, error: RequestError },
    OutgoingConnectionError,
    Ping(PingReport),
    Relay(RelayReport),
    Identified { peer: Seq<char>, protocols: Seq<Seq<char>>, addresses: Seq<AddressView> },
    Tick,
}

impl View for NodeEvent {
    type V = EventView;

    open spec fn view(&self) -> EventView {
        match self {
            NodeEvent::ConnectionEstablished { peer } => EventView::ConnectionEstablished {
                peer: peer@,
            },
            NodeEvent::ConnectionClosed { peer } => EventView::ConnectionClosed { peer: peer@ },
            NodeEvent::NewListenAddress => EventView::NewListenAddress,
            NodeEvent::RelayListenOutcome { accepted } => EventView::RelayListenOutcome {
                accepted: *accepted,
            },
            NodeEvent::RequestReceived { peer, request } => EventView::RequestReceived {
                peer: peer@,
                prompt: request@,
            },
            NodeEvent::BackendFinished { channel, outcome } => EventView::BackendFinished {
                channel: *channel,
                outcome: outcome_view(*outcome),
            },
            NodeEvent::ChannelAbandoned { channel } => EventView::ChannelAbandoned {
                channel: *channel,
            },
            NodeEvent::ResponseReceived { handle, response } => EventView::ResponseReceived {
                handle: *handle,
                response: response@,
            },
            NodeEvent::RequestFailed { handle, error } => EventView::RequestFailed {
                handle: *handle,
                error: *error,
            },
            NodeEvent::OutgoingConnectionError => EventView::OutgoingConnectionError,
            NodeEvent::Ping(report) => EventView::Ping(*report),
            NodeEvent::Relay(report) => EventView::Relay(*report),
            NodeEvent::Identified { peer, info } => EventView::Identified {
                peer: peer@,
                protocols: texts(info.protocols@),
                addresses: address_views(info.addresses@),
            },
            NodeEvent::Tick => EventView::Tick,
        }
    }
}

/// What the loop outside is to do.
#[derive(Debug, PartialEq, Eq)]
pub enum NodeAction {
    /// Dial this address.
    Dial(Multiaddress),
    /// Listen on an ephemeral local address.
    ListenDirect,
    /// Listen on this address, which goes through the relay, and answer
    /// with `RelayListenOutcome`.
    ListenViaRelay(Multiaddress),
    /// Send the prompt to `peer`, as the request with this handle.
    SendRequest { handle: u64, peer: PeerIdentifier, payload: PromptRequest },
    /// Call the backend with the prompt and answer with `BackendFinished`
    /// for this channel.
    CallBackend { channel: u64, prompt: String },
    /// Send the response on this channel.
    SendResponse { channel: u64, response: PromptResponse },
    /// Ask the relay to renew the reservation.
    RenewReservation,
    /// Tell the caller how its request ended.
    Resolved(Resolution),
    /// Report this.
    Surface(Notice),
    /// End the run.
    Exit(ExitStatus),
}

/// An action as a mathematical value.
pub enum ActionView {
    Dial(AddressView),
    ListenDirect,
    ListenViaRelay(AddressView),
    SendRequest { handle: u64, peer: Seq<char>, prompt: Seq<char> },
    CallBackend { channel: u64, prompt: Seq<char> },
    SendResponse { channel: u64, response: Seq<char> },
    RenewReservation,
    Resolved(ResolutionView),
    Surface(Notice),
    Exit(ExitStatus),
}

impl View for NodeAction {
    type V = ActionView;

    open spec fn view(&self) -> ActionView {
        match self {
            NodeAction::Dial(address) => ActionView::Dial(address@),
            NodeAction::ListenDirect => ActionView::ListenDirect,
            NodeAction::ListenViaRelay(address) => ActionView::ListenViaRelay(address@),
            NodeAction::SendRequest { handle, peer, payload } => ActionView::SendRequest {
                handle: *handle,
                peer: peer@,
                prompt: payload@,
            },
            NodeAction::CallBackend { channel, prompt } => ActionView::CallBackend {
                channel: *channel,
                prompt: prompt@,
            },
            NodeAction::SendResponse { channel, response } => ActionView::SendResponse {
                channel: *channel,
                response: response@,
            },
            NodeAction::RenewReservation => ActionView::RenewReservation,
            NodeAction::Resolved(end) => ActionView::Resolved(end@),
            NodeAction::Surface(notice) => ActionView::Surface(*notice),
            NodeAction::Exit(status) => ActionView::Exit(*status),
        }
    }
}

/// The views of a sequence of actions.
pub open spec fn action_views(actions: Seq<NodeAction>) -> Seq<ActionView> {
    actions.map_values(|a: NodeAction| a@)
}

/// The state of a run as a mathematical value.
pub struct ControllerView {
    /// The relay through which the node listens, if it has one.
    pub relay_address: Option<AddressView>,
    /// The address of the peer to send the prompt to, if the node has one.
    pub target_address: Option<AddressView>,
    /// The longest wait for the response, if the caller set one.
    pub request_timeout: Option<u64>,
    /// Where the node stands with its relay.
    pub relay_state: RelayState,
    /// Whether the prompt has been sent.
    pub prompt_sent: bool,
    /// The requests sent and not yet resolved.
    pub outbound: TableView,
    /// The channels of the requests accepted and not yet answered.
    pub inbound: ChannelsView,
    /// Where peers said they can be reached.
    pub known: Set<Reach>,
    /// How the run ended, once it has.
    pub finished: Option<ExitStatus>,
}

/// The prompt that the node sends to its target.
pub open spec fn client_prompt_text() -> Seq<char> {
    "whats 1 + 1"@
}

/// The prompt that the node sends to its target.
pub fn client_prompt() -> (prompt: &'static str)
    ensures
        prompt@ == client_prompt_text(),
{
    "whats 1 + 1"
}

/// The address on which a node without a relay listens: any interface, a
/// port of the system's choice.
pub fn ephemeral_listen_address() -> (text: &'static str)
    ensures
        text@ == "/ip4/0.0.0.0/tcp/0"@,
{
    "/ip4/0.0.0.0/tcp/0"
}

/// The relay peer: the first peer that the relay address names.
pub open spec fn relay_peer_of(c: ControllerView) -> Option<Seq<char>> {
    match c.relay_address {
        Some(address) => first_peer(address.hops),
        None => None,
    }
}

/// The target peer: the last peer that the target address names.
pub open spec fn target_peer_of(c: ControllerView) -> Option<Seq<char>> {
    match c.target_address {
        Some(address) => last_peer(address.hops),
        None => None,
    }
}

/// The time by which a request sent at `now` must be answered.
pub open spec fn deadline_spec(timeout: Option<u64>, now: u64) -> Option<u64> {
    match timeout {
        Some(wait) => Some(
            if now + wait > u64::MAX {
                u64::MAX
            } else {
                (now + wait) as u64
            },
        ),
        None => None,
    }
}

/// The state in which a run begins.
pub open spec fn initial_view(
    relay_address: Option<AddressView>,
    target_address: Option<AddressView>,
    request_timeout: Option<u64>,
) -> ControllerView {
    ControllerView {
        relay_address,
        target_address,
        request_timeout,
        relay_state: RelayState::Idle,
        prompt_sent: false,
        outbound: TableView { pending: Seq::<PendingView>::empty(), next_id: 0 },
        inbound: ChannelsView {
            table: TableView { pending: Seq::<PendingView>::empty(), next_id: 0 },
            answered: 0,
            abandoned: 0,
        },
        known: Set::<Reach>::empty(),
        finished: None,
    }
}

/// What the node does first: it dials its relay, or listens directly where
/// it has none; and it dials its target where it has one.
pub open spec fn start_spec(c: ControllerView) -> Seq<ActionView> {
    let listen = match c.relay_address {
        Some(address) => seq![ActionView::Dial(address)],
        None => seq![ActionView::ListenDirect],
    };
    let dial = match c.target_address {
        Some(address) => seq![ActionView::Dial(address)],
        None => Seq::<ActionView>::empty(),
    };
    listen + dial
}

/// A connection is up, seen from the relay side: where the peer is the
/// relay and no reservation is held or asked for, the node asks for one by
/// listening through the relay.
pub open spec fn relay_step(c: ControllerView, peer: Seq<char>) -> (ControllerView, Seq<ActionView>) {
    match c.relay_address {
        Some(address) => if first_peer(address.hops) == Some(peer) && begin_spec(c.relay_state).1 {
            match with_circuit_spec(address) {
                Ok(listen) => (
                    ControllerView { relay_state: begin_spec(c.relay_state).0, ..c },
                    seq![ActionView::ListenViaRelay(listen)],
                ),
                Err(_) => (c, seq![ActionView::Surface(Notice::RelayListenFailed)]),
            }
        } else {
            (c, Seq::<ActionView>::empty())
        },
        None => (c, Seq::<ActionView>::empty()),
    }
}

/// A connection is up, seen from the client side: where the peer is the
/// target and the prompt has not been sent, it is sent now, once.
pub open spec fn client_step(c: ControllerView, now: u64, peer: Seq<char>) -> (
    ControllerView,
    Seq<ActionView>,
) {
    if target_peer_of(c) == Some(peer) && !c.prompt_sent && c.outbound.next_id < u64::MAX {
        let id = c.outbound.next_id;
        let entry = PendingView {
            id,
            peer,
            prompt: client_prompt_text(),
            deadline: deadline_spec(c.request_timeout, now),
        };
        (
            ControllerView {
                prompt_sent: true,
                outbound: TableView {
                    pending: c.outbound.pending.push(entry),
                    next_id: (id + 1) as u64,
                },
                ..c
            },
            seq![ActionView::SendRequest { handle: id, peer, prompt: client_prompt_text() }],
        )
    } else {
        (c, Seq::<ActionView>::empty())
    }
}

/// A connection with `peer` is up.
pub open spec fn connection_established_spec(c: ControllerView, now: u64, peer: Seq<char>) -> (
    ControllerView,
    Seq<ActionView>,
) {
    let (c1, first) = relay_step(c, peer);
    let (c2, second) = client_step(c1, now, peer);
    (c2, first + second)
}

/// How the attempt to listen through the relay went: a refusal takes the
/// node back to where it can ask again.
pub open spec fn relay_listen_outcome_spec(c: ControllerView, accepted: bool) -> (
    ControllerView,
    Seq<ActionView>,
) {
    if accepted {
        (c, seq![ActionView::Surface(Notice::ListeningViaRelay)])
    } else {
        (
            ControllerView { relay_state: refused_spec(c.relay_state), ..c },
            seq![ActionView::Surface(Notice::RelayListenFailed)],
        )
    }
}

/// A request arrived: it gets a channel, and the backend is called for it.
pub open spec fn request_received_spec(c: ControllerView, peer: Seq<char>, prompt: Seq<char>) -> (
    ControllerView,
    Seq<ActionView>,
) {
    let (inbound, channel) = accept_spec(c.inbound, peer, prompt);
    (
        ControllerView { inbound, ..c },
        match channel {
            Some(id) => seq![ActionView::CallBackend { channel: id, prompt }],
            None => seq![ActionView::Surface(Notice::RequestAbandoned)],
        },
    )
}

/// The backend returned: whatever it returned, the open channel gets its one
/// response. For a channel that is not open nothing is sent.
pub open spec fn backend_finished_spec(
    c: ControllerView,
    channel: u64,
    outcome: Result<Seq<char>, BackendError>,
) -> (ControllerView, Seq<ActionView>) {
    let (inbound, taken) = send_response_spec(c.inbound, channel);
    (
        ControllerView { inbound, ..c },
        if taken {
            seq![
                ActionView::SendResponse {
                    channel,
                    response: response_text(outcome, line_for(outcome)),
                },
            ]
        } else {
            seq![ActionView::Surface(Notice::ChannelNotOpen)]
        },
    )
}

/// The stream of a channel was given up: where the channel is open, it is
/// closed unanswered and counted.
pub open spec fn channel_abandoned_spec(c: ControllerView, channel: u64) -> (
    ControllerView,
    Seq<ActionView>,
) {
    (
        ControllerView { inbound: abandon_spec(c.inbound, Rule::Handle(channel)), ..c },
        if is_pending(c.inbound.table.pending, channel) {
            seq![ActionView::Surface(Notice::ChannelsAbandoned(1))]
        } else {
            Seq::<ActionView>::empty()
        },
    )
}

/// The peer of the pending request with this handle.
pub open spec fn pending_peer(table: TableView, handle: u64) -> Seq<char> {
    leaving(table.pending, Rule::Handle(handle))[0].peer
}

/// The table without the entries that the rule concerns.
pub open spec fn table_without(table: TableView, rule: Rule) -> TableView {
    TableView { pending: staying(table.pending, rule), next_id: table.next_id }
}

/// A response arrived: where it answers a pending request, the request is
/// resolved with it and the run ends in success.
pub open spec fn response_received_spec(c: ControllerView, handle: u64, response: Seq<char>) -> (
    ControllerView,
    Seq<ActionView>,
) {
    if is_pending(c.outbound.pending, handle) {
        (
            ControllerView {
                outbound: table_without(c.outbound, Rule::Handle(handle)),
                finished: Some(ExitStatus::Success),
                ..c
            },
            seq![
                ActionView::Resolved(
                    ResolutionView {
                        id: handle,
                        peer: pending_peer(c.outbound, handle),
                        outcome: Ok(response),
                    },
                ),
                ActionView::Exit(ExitStatus::Success),
            ],
        )
    } else {
        (c, seq![ActionView::Surface(Notice::UnexpectedResponse)])
    }
}

/// A request failed: where it is pending, it is resolved with the error.
pub open spec fn request_failed_spec(c: ControllerView, handle: u64, error: RequestError) -> (
    ControllerView,
    Seq<ActionView>,
) {
    if is_pending(c.outbound.pending, handle) {
        (
            ControllerView { outbound: table_without(c.outbound, Rule::Handle(handle)), ..c },
            seq![
                ActionView::Resolved(
                    ResolutionView {
                        id: handle,
                        peer: pending_peer(c.outbound, handle),
                        outcome: Err(error),
                    },
                ),
            ],
        )
    } else {
        (c, Seq::<ActionView>::empty())
    }
}

/// Each resolution as the action that tells the caller of it.
pub open spec fn told(ends: Seq<ResolutionView>) -> Seq<ActionView> {
    ends.map_values(|r: ResolutionView| ActionView::Resolved(r))
}

/// A connection closed: every request pending on it fails with
/// `StreamFailed`, and every channel open on it is abandoned and counted.
pub open spec fn connection_closed_spec(c: ControllerView, peer: Seq<char>) -> (
    ControllerView,
    Seq<ActionView>,
) {
    let failed = failed_with(leaving(c.outbound.pending, Rule::Peer(peer)), RequestError::StreamFailed);
    let abandoned = leaving(c.inbound.table.pending, Rule::Peer(peer)).len();
    (
        ControllerView {
            outbound: table_without(c.outbound, Rule::Peer(peer)),
            inbound: abandon_spec(c.inbound, Rule::Peer(peer)),
            ..c
        },
        told(failed) + (if abandoned > 0 {
            seq![ActionView::Surface(Notice::ChannelsAbandoned(raised(0, abandoned)))]
        } else {
            Seq::<ActionView>::empty()
        }),
    )
}

/// An outgoing connection failed: that ends the run of a node with a
/// target; a node without one goes on serving.
pub open spec fn outgoing_connection_error_spec(c: ControllerView) -> (
    ControllerView,
    Seq<ActionView>,
) {
    if c.target_address is Some {
        (
            ControllerView { finished: Some(ExitStatus::Failure), ..c },
            seq![ActionView::Exit(ExitStatus::Failure)],
        )
    } else {
        (c, seq![ActionView::Surface(Notice::DialFailed)])
    }
}

/// The relay client reported: a grant or a refusal moves the reservation
/// along; every report is surfaced.
pub open spec fn relay_report_spec(c: ControllerView, now: u64, report: RelayReport) -> (
    ControllerView,
    Seq<ActionView>,
) {
    let relay_state = match report {
        RelayReport::ReservationAccepted(reservation) => granted_spec(
            c.relay_state,
            reservation,
            now,
        ).0,
        RelayReport::ReservationRefused => refused_spec(c.relay_state),
        RelayReport::CircuitEstablished => c.relay_state,
    };
    (ControllerView { relay_state, ..c }, seq![ActionView::Surface(Notice::Relay(report))])
}

/// Time has passed: a reservation past its expiry lapses, which is
/// reported; one that comes close to its expiry is renewed; requests past
/// their deadline fail with `Timeout`.
pub open spec fn tick_spec(c: ControllerView, now: u64) -> (ControllerView, Seq<ActionView>) {
    let (at_now, lapsed) = advance_spec(c.relay_state, now);
    let (relay_state, renew) = renew_spec(at_now, now, RENEWAL_MARGIN);
    let timed_out = failed_with(leaving(c.outbound.pending, Rule::DueBy(now)), RequestError::Timeout);
    (
        ControllerView {
            relay_state,
            outbound: table_without(c.outbound, Rule::DueBy(now)),
            ..c
        },
        (if lapsed {
            seq![ActionView::Surface(Notice::ReservationLapsed)]
        } else if renew {
            seq![ActionView::RenewReservation]
        } else {
            Seq::<ActionView>::empty()
        }) + told(timed_out),
    )
}

/// A peer told about itself: its addresses are added to what is known of
/// it, and whether it speaks the protocol of this node is reported.
pub open spec fn identified_spec(
    c: ControllerView,
    peer: Seq<char>,
    protocols: Seq<Seq<char>>,
    addresses: Seq<AddressView>,
) -> (ControllerView, Seq<ActionView>) {
    (
        ControllerView { known: with_addresses(c.known, peer, addresses), ..c },
        seq![ActionView::Surface(Notice::Identified(protocols.contains(protocol_id_text())))],
    )
}

/// What the node does about an event that reaches it at `now`: the state
/// after it, and the actions to carry out, in order. A run that has ended
/// does nothing more.
pub open spec fn step(c: ControllerView, now: u64, event: EventView) -> (
    ControllerView,
    Seq<ActionView>,
) {
    if c.finished is Some {
        (c, Seq::<ActionView>::empty())
    } else {
        match event {
            EventView::ConnectionEstablished { peer } => connection_established_spec(c, now, peer),
            EventView::ConnectionClosed { peer } => connection_closed_spec(c, peer),
            EventView::NewListenAddress => (c, seq![ActionView::Surface(Notice::Listening)]),
            EventView::RelayListenOutcome { accepted } => relay_listen_outcome_spec(c, accepted),
            EventView::RequestReceived { peer, prompt } => request_received_spec(c, peer, prompt),
            EventView::BackendFinished { channel, outcome } => backend_finished_spec(
                c,
                channel,
                outcome,
            ),
            EventView::ChannelAbandoned { channel } => channel_abandoned_spec(c, channel),
            EventView::ResponseReceived { handle, response } => response_received_spec(
                c,
                handle,
                response,
            ),
            EventView::RequestFailed { handle, error } => request_failed_spec(c, handle, error),
            EventView::OutgoingConnectionError => outgoing_connection_error_spec(c),
            EventView::Ping(report) => (c, seq![ActionView::Surface(Notice::Ping(report))]),
            EventView::Relay(report) => relay_report_spec(c, now, report),
            EventView::Identified { peer, protocols, addresses } => identified_spec(
                c,
                peer,
                protocols,
                addresses,
            ),
            EventView::Tick => tick_spec(c, now),
        }
    }
}

/// The invariant of a run, as far as the view shows it.
pub open spec fn controller_wf(c: ControllerView) -> bool {
    &&& table_wf(c.outbound)
    &&& channels_wf(c.inbound)
    &&& c.outbound.next_id == (if c.prompt_sent {
        1u64
    } else {
        0u64
    })
    &&& c.target_address is Some ==> target_peer_of(c) is Some
}

/// The state of a run.
#[derive(Debug)]
pub struct NodeController {
    relay_address: Option<Multiaddress>,
    target_address: Option<Multiaddress>,
    request_timeout: Option<u64>,
    relay: Option<RelayLink>,
    target_peer: Option<PeerIdentifier>,
    prompt_sent: bool,
    outbound: PendingRequests,
    inbound: ResponseChannels,
    peers: AddressBook,
    finished: Option<ExitStatus>,
}

/// The view of an optional address.
pub open spec fn address_option_view(address: Option<Multiaddress>) -> Option<AddressView> {
    match address {
        Some(a) => Some(a@),
        None => None,
    }
}

/// The view of an optional peer.
pub open spec fn peer_option_view(peer: Option<PeerIdentifier>) -> Option<Seq<char>> {
    match peer {
        Some(p) => Some(p@),
        None => None,
    }
}

impl View for NodeController {
    type V = ControllerView;

    closed spec fn view(&self) -> ControllerView {
        ControllerView {
            relay_address: address_option_view(self.relay_address),
            target_address: address_option_view(self.target_address),
            request_timeout: self.request_timeout,
            relay_state: match self.relay {
                Some(link) => link.state_view(),
                None => RelayState::Idle,
            },
            prompt_sent: self.prompt_sent,
            outbound: self.outbound@,
            inbound: self.inbound@,
            known: self.peers@,
            finished: self.finished,
        }
    }
}

impl NodeController {
    /// The invariant of a run.
    pub closed spec fn wf(&self) -> bool {
        &&& controller_wf(self@)
        &&& match self.relay {
            Some(link) => relay_peer_of(self@) == Some(link.relay_view()),
            None => relay_peer_of(self@) is None,
        }
        &&& peer_option_view(self.target_peer) == target_peer_of(self@)
    }

    /// What `wf` says of the view.
    pub proof fn lemma_wf(&self)
        requires
            self.wf(),
        ensures
            controller_wf(self@),
    {
    }

    /// Sets up a run. A target address must name the peer that the prompt is
    /// for; one that names none is refused before anything is dialed.
    pub fn new(
        relay_address: Option<Multiaddress>,
        target_address: Option<Multiaddress>,
        request_timeout: Option<u64>,
    ) -> (made: Result<NodeController, AddressError>)
        ensures
            match made {
                Ok(controller) => {
                    &&& controller.wf()
                    &&& controller@ == initial_view(
                        address_option_view(relay_address),
                        address_option_view(target_address),
                        request_timeout,
                    )
                },
                Err(e) => {
                    &&& e == AddressError::MissingPeerIdentifier
                    &&& target_address matches Some(address) && last_peer(address@.hops) is None
                },
            },
            made is Err <==> (target_address matches Some(address) && last_peer(address@.hops)
                is None),
    {
        let target_peer = match &target_address {
            Some(address) => match address.target_peer() {
                Ok(peer) => Some(peer),
                Err(_) => {
                    return Err(AddressError::MissingPeerIdentifier);
                },
            },
            None => None,
        };
        let relay_peer = match &relay_address {
            Some(address) => address.relay_peer(),
            None => None,
        };
        let relay = match relay_peer {
            Some(peer) => Some(RelayLink::new(peer)),
            None => None,
        };
        let ghost begun = initial_view(
            address_option_view(relay_address),
            address_option_view(target_address),
            request_timeout,
        );
        let controller = NodeController {
            relay_address,
            target_address,
            request_timeout,
            relay,
            target_peer,
            prompt_sent: false,
            outbound: PendingRequests::new(),
            inbound: ResponseChannels::new(),
            peers: AddressBook::new(),
            finished: None,
        };
        proof {
            assert(controller@.outbound.pending =~= begun.outbound.pending);
            assert(controller@.inbound.table.pending =~= begun.inbound.table.pending);
            assert(controller@.outbound == begun.outbound);
            assert(controller@.inbound.table == begun.inbound.table);
            assert(controller@.inbound == begun.inbound);
            assert(controller@ == begun);
        }
        Ok(controller)
    }

    /// The first actions of a run.
    pub fn start(&self) -> (actions: Vec<NodeAction>)
        requires
            self.wf(),
        ensures
            action_views(actions@) == start_spec(self@),
    {
        let mut actions: Vec<NodeAction> = Vec::new();
        match &self.relay_address {
            Some(address) => {
                actions.push(NodeAction::Dial(address.duplicate()));
            },
            None => {
                actions.push(NodeAction::ListenDirect);
            },
        }
        match &self.target_address {
            Some(address) => {
                actions.push(NodeAction::Dial(address.duplicate()));
            },
            None => {},
        }
        proof {
            assert(action_views(actions@) =~= start_spec(self@));
        }
        actions
    }

    /// Whether the prompt has been sent.
    pub fn prompt_sent(&self) -> (sent: bool)
        ensures
            sent == self@.prompt_sent,
    {
        self.prompt_sent
    }

    /// Where the node stands with its relay.
    pub fn relay_state(&self) -> (state: RelayState)
        ensures
            state == self@.relay_state,
    {
        match &self.relay {
            Some(link) => link.state(),
            None => RelayState::Idle,
        }
    }

    /// How the run ended, once it has.
    pub fn finished(&self) -> (status: Option<ExitStatus>)
        ensures
            status == self@.finished,
    {
        self.finished
    }

    /// Takes one event that happened at `now` and says what to do about it.
    pub fn handle(&mut self, now: u64, event: NodeEvent) -> (actions: Vec<NodeAction>)
        requires
            old(self).wf(),
        ensures
            final(self).wf(),
            final(self)@ == step(old(self)@, now, event@).0,
            action_views(actions@) == step(old(self)@, now, event@).1,
    {
        if self.finished.is_some() {
            let actions: Vec<NodeAction> = Vec::new();
            assert(action_views(actions@) =~= Seq::<ActionView>::empty());
            return actions;
        }
        match event {
            NodeEvent::ConnectionEstablished { peer } => self.on_connection_established(now, &peer),
            NodeEvent::ConnectionClosed { peer } => self.on_connection_closed(&peer),
            NodeEvent::NewListenAddress => one_action(NodeAction::Surface(Notice::Listening)),
            NodeEvent::RelayListenOutcome { accepted } => self.on_relay_listen_outcome(accepted),
            NodeEvent::RequestReceived { peer, request } => self.on_request_received(peer, request),
            NodeEvent::BackendFinished { channel, outcome } => self.on_backend_finished(
                channel,
                outcome,
            ),
            NodeEvent::ChannelAbandoned { channel } => self.on_channel_abandoned(channel),
            NodeEvent::ResponseReceived { handle, response } => self.on_response_received(
                handle,
                response,
            ),
            NodeEvent::RequestFailed { handle, error } => self.on_request_failed(handle, error),
            NodeEvent::OutgoingConnectionError => self.on_outgoing_connection_error(),
            NodeEvent::Ping(report) => one_action(NodeAction::Surface(Notice::Ping(report))),
            NodeEvent::Relay(report) => self.on_relay_report(now, report),
            NodeEvent::Identified { peer, info } => self.on_identified(&peer, &info),
            NodeEvent::Tick => self.on_tick(now),
        }
    }

    /// A connection with `peer` is up.
    pub fn on_connection_established(&mut self, now: u64, peer: &PeerIdentifier) -> (actions: Vec<
        NodeAction,
    >)
        requires
            old(self).wf(),
        ensures
            final(self).wf(),
            final(self)@ == connection_established_spec(old(self)@, now, peer@).0,
            action_views(actions@) == connection_established_spec(old(self)@, now, peer@).1,
    {
        let mut actions: Vec<NodeAction> = Vec::new();
        let may_reserve = match &self.relay {
            Some(link) => link.relay().equals(peer) && link.state().begin().1,
            None => false,
        };
        if may_reserve {
            match &self.relay_address {
                Some(address) => match address.with_circuit() {
                    Ok(listen) => {
                        match &mut self.relay {
                            Some(link) => {
                                link.reserve();
                            },
                            None => {},
                        }
                        actions.push(NodeAction::ListenViaRelay(listen));
                    },
                    Err(_) => {
                        actions.push(NodeAction::Surface(Notice::RelayListenFailed));
                    },
                },
                None => {},
            }
        }
        let ghost between = self@;
        let ghost first = action_views(actions@);
        proof {
            assert(between == relay_step(old(self)@, peer@).0);
            assert(first =~= relay_step(old(self)@, peer@).1);
        }
        let is_target = match &self.target_peer {
            Some(target) => target.equals(peer),
            None => false,
        };
        if is_target && !self.prompt_sent {
            let deadline = match self.request_timeout {
                Some(wait) => Some(
                    if wait > u64::MAX - now {
                        u64::MAX
                    } else {
                        now + wait
                    },
                ),
                None => None,
            };
            let sent = self.outbound.send_request(
                peer.duplicate(),
                PromptRequest::new(client_prompt()),
                deadline,
            );
            match sent {
                Some(handle) => {
                    self.prompt_sent = true;
                    actions.push(
                        NodeAction::SendRequest {
                            handle,
                            peer: peer.duplicate(),
                            payload: PromptRequest::new(client_prompt()),
                        },
                    );
                },
                None => {},
            }
        }
        proof {
            assert(self@.outbound == client_step(between, now, peer@).0.outbound);
            assert(self@ == client_step(between, now, peer@).0);
            assert(action_views(actions@) =~= first + client_step(between, now, peer@).1);
        }
        actions
    }

    /// The connection with `peer` is gone.
    pub fn on_connection_closed(&mut self, peer: &PeerIdentifier) -> (actions: Vec<NodeAction>)
        requires
            old(self).wf(),
        ensures
            final(self).wf(),
            final(self)@ == connection_closed_spec(old(self)@, peer@).0,
            action_views(actions@) == connection_closed_spec(old(self)@, peer@).1,
    {
        let ends = self.outbound.connection_closed(peer);
        let mut actions = tell(ends);
        let abandoned = self.inbound.connection_closed(peer);
        let ghost first = action_views(actions@);
        if abandoned > 0 {
            let count: u64 = if abandoned as u64 as usize == abandoned {
                abandoned as u64
            } else {
                u64::MAX
            };
            actions.push(NodeAction::Surface(Notice::ChannelsAbandoned(count)));
            proof {
                assert(count == raised(0, abandoned as nat));
                assert(action_views(actions@) =~= first + seq![
                    ActionView::Surface(Notice::ChannelsAbandoned(count)),
                ]);
            }
        } else {
            proof {
                assert(action_views(actions@) =~= first + Seq::<ActionView>::empty());
            }
        }
        actions
    }

    /// How the attempt to listen through the relay went.
    pub fn on_relay_listen_outcome(&mut self, accepted: bool) -> (actions: Vec<NodeAction>)
        requires
            old(self).wf(),
        ensures
            final(self).wf(),
            final(self)@ == relay_listen_outcome_spec(old(self)@, accepted).0,
            action_views(actions@) == relay_listen_outcome_spec(old(self)@, accepted).1,
    {
        if accepted {
            one_action(NodeAction::Surface(Notice::ListeningViaRelay))
        } else {
            match &mut self.relay {
                Some(link) => {
                    link.refused();
                },
                None => {},
            }
            one_action(NodeAction::Surface(Notice::RelayListenFailed))
        }
    }

    /// `peer` sent a request.
    pub fn on_request_received(&mut self, peer: PeerIdentifier, request: PromptRequest) -> (actions:
        Vec<NodeAction>)
        requires
            old(self).wf(),
        ensures
            final(self).wf(),
            final(self)@ == request_received_spec(old(self)@, peer@, request@).0,
            action_views(actions@) == request_received_spec(old(self)@, peer@, request@).1,
    {
        let prompt = request.prompt.clone();
        match self.inbound.accept_request(peer, request) {
            Some(channel) => one_action(NodeAction::CallBackend { channel, prompt }),
            None => one_action(NodeAction::Surface(Notice::RequestAbandoned)),
        }
    }

    /// The backend call for `channel` returned.
    pub fn on_backend_finished(&mut self, channel: u64, outcome: Result<String, BackendError>) -> (
        actions: Vec<NodeAction>)
        requires
            old(self).wf(),
        ensures
            final(self).wf(),
            final(self)@ == backend_finished_spec(old(self)@, channel, outcome_view(outcome)).0,
            action_views(actions@) == backend_finished_spec(
                old(self)@,
                channel,
                outcome_view(outcome),
            ).1,
    {
        let response = response_for(outcome);
        match self.inbound.send_response(channel, response.duplicate()) {
            Ok(_) => one_action(NodeAction::SendResponse { channel, response }),
            Err(_) => one_action(NodeAction::Surface(Notice::ChannelNotOpen)),
        }
    }

    /// The stream of `channel` was given up before a response was sent.
    pub fn on_channel_abandoned(&mut self, channel: u64) -> (actions: Vec<NodeAction>)
        requires
            old(self).wf(),
        ensures
            final(self).wf(),
            final(self)@ == channel_abandoned_spec(old(self)@, channel).0,
            action_views(actions@) == channel_abandoned_spec(old(self)@, channel).1,
    {
        if self.inbound.abandon(channel) {
            one_action(NodeAction::Surface(Notice::ChannelsAbandoned(1)))
        } else {
            let actions: Vec<NodeAction> = Vec::new();
            assert(action_views(actions@) =~= Seq::<ActionView>::empty());
            actions
        }
    }

    /// The response to the request with this handle arrived.
    pub fn on_response_received(&mut self, handle: u64, response: PromptResponse) -> (actions: Vec<
        NodeAction,
    >)
        requires
            old(self).wf(),
        ensures
            final(self).wf(),
            final(self)@ == response_received_spec(old(self)@, handle, response@).0,
            action_views(actions@) == response_received_spec(old(self)@, handle, response@).1,
    {
        proof {
            if !is_pending(self@.outbound.pending, handle) {
                lemma_none_leaves(self@.outbound.pending, handle);
            }
        }
        match self.outbound.resolve(handle, Ok(response)) {
            Some(end) => {
                self.finished = Some(ExitStatus::Success);
                let mut actions: Vec<NodeAction> = Vec::new();
                let ghost told_end = end@;
                actions.push(NodeAction::Resolved(end));
                actions.push(NodeAction::Exit(ExitStatus::Success));
                proof {
                    assert(action_views(actions@) =~= seq![
                        ActionView::Resolved(told_end),
                        ActionView::Exit(ExitStatus::Success),
                    ]);
                }
                actions
            },
            None => one_action(NodeAction::Surface(Notice::UnexpectedResponse)),
        }
    }

    /// The request with this handle failed.
    pub fn on_request_failed(&mut self, handle: u64, error: RequestError) -> (actions: Vec<
        NodeAction,
    >)
        requires
            old(self).wf(),
        ensures
            final(self).wf(),
            final(self)@ == request_failed_spec(old(self)@, handle, error).0,
            action_views(actions@) == request_failed_spec(old(self)@, handle, error).1,
    {
        proof {
            if !is_pending(self@.outbound.pending, handle) {
                lemma_none_leaves(self@.outbound.pending, handle);
            }
        }
        match self.outbound.resolve(handle, Err(error)) {
            Some(end) => one_action(NodeAction::Resolved(end)),
            None => {
                let actions: Vec<NodeAction> = Vec::new();
                assert(action_views(actions@) =~= Seq::<ActionView>::empty());
                actions
            },
        }
    }

    /// An outgoing connection could not be set up.
    pub fn on_outgoing_connection_error(&mut self) -> (actions: Vec<NodeAction>)
        requires
            old(self).wf(),
        ensures
            final(self).wf(),
            final(self)@ == outgoing_connection_error_spec(old(self)@).0,
            action_views(actions@) == outgoing_connection_error_spec(old(self)@).1,
    {
        if self.target_address.is_some() {
            self.finished = Some(ExitStatus::Failure);
            one_action(NodeAction::Exit(ExitStatus::Failure))
        } else {
            one_action(NodeAction::Surface(Notice::DialFailed))
        }
    }

    /// The relay client reported.
    pub fn on_relay_report(&mut self, now: u64, report: RelayReport) -> (actions: Vec<NodeAction>)
        requires
            old(self).wf(),
        ensures
            final(self).wf(),
            final(self)@ == relay_report_spec(old(self)@, now, report).0,
            action_views(actions@) == relay_report_spec(old(self)@, now, report).1,
    {
        match &mut self.relay {
            Some(link) => match report {
                RelayReport::ReservationAccepted(reservation) => {
                    link.granted(reservation, now);
                },
                RelayReport::ReservationRefused => {
                    link.refused();
                },
                RelayReport::CircuitEstablished => {},
            },
            None => {},
        }
        one_action(NodeAction::Surface(Notice::Relay(report)))
    }

    /// `peer` told its protocols and addresses.
    pub fn on_identified(&mut self, peer: &PeerIdentifier, info: &PeerInfo) -> (actions: Vec<
        NodeAction,
    >)
        requires
            old(self).wf(),
        ensures
            final(self).wf(),
            final(self)@ == identified_spec(
                old(self)@,
                peer@,
                texts(info.protocols@),
                address_views(info.addresses@),
            ).0,
            action_views(actions@) == identified_spec(
                old(self)@,
                peer@,
                texts(info.protocols@),
                address_views(info.addresses@),
            ).1,
    {
        self.peers.record_all(peer, &info.addresses);
        let speaks = info.supports(protocol_id());
        one_action(NodeAction::Surface(Notice::Identified(speaks)))
    }

    /// The addresses at which `peer` said it can be reached.
    pub fn addresses_of(&self, peer: &PeerIdentifier) -> (found: Vec<Multiaddress>)
        ensures
            address_views(found@).to_set() == known_addresses(self@.known, peer@),
    {
        self.peers.addresses_of(peer)
    }

    /// Time has passed.
    pub fn on_tick(&mut self, now: u64) -> (actions: Vec<NodeAction>)
        requires
            old(self).wf(),
        ensures
            final(self).wf(),
            final(self)@ == tick_spec(old(self)@, now).0,
            action_views(actions@) == tick_spec(old(self)@, now).1,
    {
        let (lapsed, renew) = match &mut self.relay {
            Some(link) => {
                let lapsed = link.advance(now);
                let renew = link.renew(now, RENEWAL_MARGIN);
                (lapsed, renew)
            },
            None => (false, false),
        };
        let mut actions: Vec<NodeAction> = Vec::new();
        if lapsed {
            actions.push(NodeAction::Surface(Notice::ReservationLapsed));
        } else if renew {
            actions.push(NodeAction::RenewReservation);
        }
        let ghost first = action_views(actions@);
        let ends = self.outbound.expire(now);
        let mut more = tell(ends);
        let ghost second = action_views(more@);
        actions.append(&mut more);
        proof {
            assert(first =~= (if lapsed {
                seq![ActionView::Surface(Notice::ReservationLapsed)]
            } else if renew {
                seq![ActionView::RenewReservation]
            } else {
                Seq::<ActionView>::empty()
            }));
            assert(action_views(actions@) =~= first + second);
        }
        actions
    }
}

/// One action, alone.
fn one_action(action: NodeAction) -> (actions: Vec<NodeAction>)
    ensures
        action_views(actions@) == seq![action@],
{
    let mut actions: Vec<NodeAction> = Vec::new();
    actions.push(action);
    proof {
        assert(action_views(actions@) =~= seq![action@]);
    }
    actions
}

/// The actions that tell the caller of each resolution.
fn tell(ends: Vec<Resolution>) -> (actions: Vec<NodeAction>)
    ensures
        action_views(actions@) == told(resolution_views(ends@)),
{
    let mut actions: Vec<NodeAction> = Vec::new();
    let ghost views = resolution_views(ends@);
    for end in it: ends.into_iter()
        invariant
            it.seq() == ends@,
            views == resolution_views(ends@),
            actions.len() == it.index(),
            forall|j: int| 0 <= j < it.index() ==> (#[trigger] actions@[j])@ == told(views)[j],
    {
        proof {
            assert(views[it.index() as int] == end@);
        }
        actions.push(NodeAction::Resolved(end));
    }
    proof {
        assert(action_views(actions@) =~= told(views));
    }
    actions
}

} // verus!
