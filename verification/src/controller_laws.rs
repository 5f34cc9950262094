//! What holds of every run of the node controller.

use vstd::prelude::*;

use crate::backend::BackendError;
use crate::controller::controller_wf;
use crate::controller::step;
use crate::controller::ActionView;
use crate::controller::ControllerView;
use crate::controller::EventView;
use crate::controller::ExitStatus;
use crate::controller::told;
use crate::exchange::failed_with;
use crate::exchange::is_pending;
use crate::exchange::leaving;
use crate::exchange::PendingView;
use crate::exchange::ResolutionView;
use crate::exchange::lemma_channels_stay_wf;
use crate::exchange::lemma_one_response_per_channel;
use crate::exchange::lemma_staying_wf;
use crate::controller::Notice;
use crate::controller::RelayReport;
use crate::exchange::Rule;
use crate::relay::usable_at;
use crate::relay::RelayReservation;
use crate::relay::RelayState;

verus! {

/// No action of the sequence sends a request.
pub open spec fn sends_no_request(actions: Seq<ActionView>) -> bool {
    forall|i: int| 0 <= i < actions.len() ==> !(#[trigger] actions[i] is SendRequest)
}

/// No action of the sequence sends a response.
pub open spec fn sends_no_response(actions: Seq<ActionView>) -> bool {
    forall|i: int| 0 <= i < actions.len() ==> !(#[trigger] actions[i] is SendResponse)
}

/// No action of the sequence ends the run.
pub open spec fn ends_no_run(actions: Seq<ActionView>) -> bool {
    forall|i: int| 0 <= i < actions.len() ==> !(#[trigger] actions[i] is Exit)
}

/// Whatever happens, the state of a run stays in order.
pub proof fn lemma_step_keeps_wf(c: ControllerView, now: u64, event: EventView)
    requires
        controller_wf(c),
    ensures
        controller_wf(step(c, now, event).0),
{
    if c.finished is None {
        match event {
            EventView::ConnectionEstablished { peer } => {
                if !c.prompt_sent {
                    assert(c.outbound.pending.len() == 0) by {
                        if c.outbound.pending.len() > 0 {
                            assert(c.outbound.pending[0].id < c.outbound.next_id);
                        }
                    }
                }
            },
            EventView::ConnectionClosed { peer } => {
                lemma_staying_wf(c.outbound, Rule::Peer(peer));
                lemma_channels_stay_wf(c.inbound, peer, peer, 0, Rule::Peer(peer));
            },
            EventView::RequestReceived { peer, prompt } => {
                lemma_channels_stay_wf(c.inbound, peer, prompt, 0, Rule::Handle(0));
            },
            EventView::BackendFinished { channel, outcome } => {
                lemma_channels_stay_wf(
                    c.inbound,
                    Seq::empty(),
                    Seq::empty(),
                    channel,
                    Rule::Handle(channel),
                );
            },
            EventView::ChannelAbandoned { channel } => {
                lemma_channels_stay_wf(
                    c.inbound,
                    Seq::empty(),
                    Seq::empty(),
                    channel,
                    Rule::Handle(channel),
                );
            },
            EventView::ResponseReceived { handle, response } => {
                lemma_staying_wf(c.outbound, Rule::Handle(handle));
            },
            EventView::RequestFailed { handle, error } => {
                lemma_staying_wf(c.outbound, Rule::Handle(handle));
            },
            EventView::Tick => {
                lemma_staying_wf(c.outbound, Rule::DueBy(now));
            },
            _ => {},
        }
    }
}

/// The prompt is sent at most once in a run: a step sends it only while it
/// has not been sent, then records that it has, and the record is never
/// taken back.
pub proof fn lemma_prompt_sent_once(c: ControllerView, now: u64, event: EventView)
    ensures
        c.prompt_sent ==> step(c, now, event).0.prompt_sent,
        c.prompt_sent ==> sends_no_request(step(c, now, event).1),
        !step(c, now, event).0.prompt_sent ==> sends_no_request(step(c, now, event).1),
        !(event is ConnectionEstablished) ==> sends_no_request(step(c, now, event).1),
{
}

/// A step sends at most one request, and it is the prompt for the target.
pub proof fn lemma_one_request_per_step(c: ControllerView, now: u64, event: EventView, i: int, j: int)
    requires
        0 <= i < step(c, now, event).1.len(),
        0 <= j < step(c, now, event).1.len(),
        step(c, now, event).1[i] is SendRequest,
        step(c, now, event).1[j] is SendRequest,
    ensures
        i == j,
        !c.prompt_sent,
        step(c, now, event).0.prompt_sent,
        step(c, now, event).1[i] matches ActionView::SendRequest { handle, peer, prompt }
            && prompt == crate::controller::client_prompt_text() && Some(peer)
            == crate::controller::target_peer_of(c),
{
}

/// Whatever the backend returned, the open channel of an accepted request
/// gets exactly one response: an error of the backend is told in the
/// response, not by silence.
pub proof fn lemma_every_outcome_is_answered(
    c: ControllerView,
    now: u64,
    channel: u64,
    outcome: Result<Seq<char>, BackendError>,
)
    requires
        c.finished is None,
        is_pending(c.inbound.table.pending, channel),
    ensures
        step(c, now, EventView::BackendFinished { channel, outcome }).1.len() == 1,
        step(c, now, EventView::BackendFinished { channel, outcome }).1[0] matches ActionView::SendResponse {
            channel: on,
            response,
        } && on == channel && response == crate::backend::response_text(
            outcome,
            crate::backend::line_for(outcome),
        ),
        step(c, now, EventView::BackendFinished { channel, outcome }).0.inbound.answered
            == crate::exchange::raised(c.inbound.answered, 1),
{
}

/// Of two returns of the backend for one channel, the second sends nothing
/// and changes nothing.
pub proof fn lemma_one_response_per_request(
    c: ControllerView,
    first_at: u64,
    second_at: u64,
    channel: u64,
    first: Result<Seq<char>, BackendError>,
    second: Result<Seq<char>, BackendError>,
)
    ensures
        ({
            let once = step(c, first_at, EventView::BackendFinished { channel, outcome: first });
            let twice = step(
                once.0,
                second_at,
                EventView::BackendFinished { channel, outcome: second },
            );
            &&& twice.0 == once.0
            &&& sends_no_response(twice.1)
        }),
{
    lemma_one_response_per_channel(c.inbound, channel);
}

/// A run ends only in two ways: in success when the response to its pending
/// request arrives, in failure when it has a target and an outgoing
/// connection fails. Once it has ended, nothing more is done.
pub proof fn lemma_how_a_run_ends(c: ControllerView, now: u64, event: EventView)
    ensures
        c.finished is Some ==> step(c, now, event) == (c, Seq::<ActionView>::empty()),
        c.finished is None && step(c, now, event).0.finished == Some(ExitStatus::Success) ==> (
        event matches EventView::ResponseReceived { handle, response } && is_pending(
            c.outbound.pending,
            handle,
        )),
        c.finished is None && step(c, now, event).0.finished == Some(ExitStatus::Failure) ==> (
        event is OutgoingConnectionError && c.target_address is Some),
        step(c, now, event).0.finished is None ==> ends_no_run(step(c, now, event).1),
{
}

/// A reservation that is renewed before its expiry is not reported as
/// lapsed, and stays usable, at every time before the new expiry.
pub proof fn lemma_renewed_reservation_does_not_lapse(
    c: ControllerView,
    held: RelayReservation,
    renewing: bool,
    renewed: RelayReservation,
    renewed_at: u64,
    t: u64,
)
    requires
        c.finished is None,
        c.relay_state == (RelayState::Reserved { reservation: held, renewing }),
        renewed_at < held.expiry,
        held.expiry <= renewed.expiry,
        renewed_at <= t < renewed.expiry,
    ensures
        ({
            let granted = step(
                c,
                renewed_at,
                EventView::Relay(RelayReport::ReservationAccepted(renewed)),
            );
            let later = step(granted.0, t, EventView::Tick);
            &&& usable_at(granted.0.relay_state, t)
            &&& usable_at(later.0.relay_state, t)
            &&& forall|i: int|
                0 <= i < later.1.len() ==> (#[trigger] later.1[i]) != ActionView::Surface(
                    Notice::ReservationLapsed,
                )
        }),
{
}

/// A reservation that is not renewed is reported as lapsed at the first
/// look at the clock from its expiry on, and is unusable from then on.
pub proof fn lemma_lapse_is_reported(
    c: ControllerView,
    held: RelayReservation,
    renewing: bool,
    t: u64,
)
    requires
        c.finished is None,
        c.relay_state == (RelayState::Reserved { reservation: held, renewing }),
        held.expiry <= t,
    ensures
        step(c, t, EventView::Tick).1.len() >= 1,
        step(c, t, EventView::Tick).1[0] == ActionView::Surface(Notice::ReservationLapsed),
        step(c, t, EventView::Tick).0.relay_state == RelayState::Expired,
        forall|later: u64| !usable_at(step(c, t, EventView::Tick).0.relay_state, later),
{
}

/// An event together with the time at which it reaches the node.
pub type Timed = (u64, EventView);

/// A run: the state after the events, taken in order from `c`, and all the
/// actions that they led to, in order.
pub open spec fn run(c: ControllerView, events: Seq<Timed>) -> (ControllerView, Seq<ActionView>)
    decreases events.len(),
{
    if events.len() == 0 {
        (c, Seq::<ActionView>::empty())
    } else {
        let first = step(c, events[0].0, events[0].1);
        let rest = run(first.0, events.skip(1));
        (rest.0, first.1 + rest.1)
    }
}

/// How many of the actions send a request.
pub open spec fn requests_sent(actions: Seq<ActionView>) -> nat
    decreases actions.len(),
{
    if actions.len() == 0 {
        0
    } else {
        requests_sent(actions.drop_last()) + (if actions.last() is SendRequest {
            1nat
        } else {
            0nat
        })
    }
}

/// How many of the actions send a response on `channel`.
pub open spec fn responses_sent(actions: Seq<ActionView>, channel: u64) -> nat
    decreases actions.len(),
{
    if actions.len() == 0 {
        0
    } else {
        responses_sent(actions.drop_last(), channel) + (if actions.last() matches ActionView::SendResponse {
            channel: on,
            response: _,
        } && on == channel {
            1nat
        } else {
            0nat
        })
    }
}

proof fn lemma_requests_sent_add(first: Seq<ActionView>, second: Seq<ActionView>)
    ensures
        requests_sent(first + second) == requests_sent(first) + requests_sent(second),
    decreases second.len(),
{
    if second.len() == 0 {
        assert(first + second =~= first);
    } else {
        lemma_requests_sent_add(first, second.drop_last());
        assert((first + second).drop_last() =~= first + second.drop_last());
        assert((first + second).last() == second.last());
    }
}

proof fn lemma_responses_sent_add(first: Seq<ActionView>, second: Seq<ActionView>, channel: u64)
    ensures
        responses_sent(first + second, channel) == responses_sent(first, channel) + responses_sent(
            second,
            channel,
        ),
    decreases second.len(),
{
    if second.len() == 0 {
        assert(first + second =~= first);
    } else {
        lemma_responses_sent_add(first, second.drop_last(), channel);
        assert((first + second).drop_last() =~= first + second.drop_last());
        assert((first + second).last() == second.last());
    }
}

proof fn lemma_single_action_counted(actions: Seq<ActionView>, channel: u64)
    requires
        actions.len() == 1,
    ensures
        requests_sent(actions) == (if actions[0] is SendRequest {
            1nat
        } else {
            0nat
        }),
        responses_sent(actions, channel) == (if actions[0] matches ActionView::SendResponse {
            channel: on,
            response: _,
        } && on == channel {
            1nat
        } else {
            0nat
        }),
{
    assert(actions.drop_last() =~= Seq::<ActionView>::empty());
    assert(requests_sent(actions.drop_last()) == 0);
    assert(responses_sent(actions.drop_last(), channel) == 0);
    assert(actions.last() == actions[0]);
}

proof fn lemma_no_request_counted(actions: Seq<ActionView>)
    requires
        sends_no_request(actions),
    ensures
        requests_sent(actions) == 0,
    decreases actions.len(),
{
    if actions.len() > 0 {
        assert forall|i: int| 0 <= i < actions.drop_last().len() implies !(
        #[trigger] actions.drop_last()[i] is SendRequest) by {
            assert(actions.drop_last()[i] == actions[i]);
        }
        lemma_no_request_counted(actions.drop_last());
        assert(!(actions[actions.len() - 1] is SendRequest));
    }
}

proof fn lemma_no_response_counted(actions: Seq<ActionView>, channel: u64)
    requires
        sends_no_response(actions),
    ensures
        responses_sent(actions, channel) == 0,
    decreases actions.len(),
{
    if actions.len() > 0 {
        assert forall|i: int| 0 <= i < actions.drop_last().len() implies !(
        #[trigger] actions.drop_last()[i] is SendResponse) by {
            assert(actions.drop_last()[i] == actions[i]);
        }
        lemma_no_response_counted(actions.drop_last(), channel);
        assert(!(actions[actions.len() - 1] is SendResponse));
    }
}

/// The state of a run stays in order along the whole run.
pub proof fn lemma_run_keeps_wf(c: ControllerView, events: Seq<Timed>)
    requires
        controller_wf(c),
    ensures
        controller_wf(run(c, events).0),
    decreases events.len(),
{
    if events.len() > 0 {
        lemma_step_keeps_wf(c, events[0].0, events[0].1);
        lemma_run_keeps_wf(step(c, events[0].0, events[0].1).0, events.skip(1));
    }
}

/// Whatever events reach the node, and in whatever order: in one run the
/// prompt is sent at most once, and not at all once it has been sent.
pub proof fn lemma_one_prompt_per_run(c: ControllerView, events: Seq<Timed>)
    ensures
        requests_sent(run(c, events).1) <= 1,
        c.prompt_sent ==> requests_sent(run(c, events).1) == 0,
    decreases events.len(),
{
    if events.len() > 0 {
        let first = step(c, events[0].0, events[0].1);
        let rest = run(first.0, events.skip(1));
        lemma_prompt_sent_once(c, events[0].0, events[0].1);
        lemma_one_prompt_per_run(first.0, events.skip(1));
        lemma_requests_sent_add(first.1, rest.1);
        if c.prompt_sent || !first.0.prompt_sent {
            lemma_no_request_counted(first.1);
        } else {
            assert(requests_sent(first.1) <= 1) by {
                lemma_at_most_one_request(c, events[0].0, events[0].1);
            }
        }
    }
}

proof fn lemma_at_most_one_request(c: ControllerView, now: u64, event: EventView)
    ensures
        requests_sent(step(c, now, event).1) <= 1,
{
    let actions = step(c, now, event).1;
    if event is ConnectionEstablished && c.finished is None {
        let peer = event->ConnectionEstablished_peer;
        let first = crate::controller::relay_step(c, peer);
        let second = crate::controller::client_step(first.0, now, peer);
        assert(actions == first.1 + second.1);
        lemma_requests_sent_add(first.1, second.1);
        lemma_no_request_counted(first.1);
        if second.1.len() > 0 {
            lemma_single_action_counted(second.1, 0);
        }
    } else {
        lemma_prompt_sent_once(c, now, event);
        lemma_no_request_counted(actions);
    }
}

/// A step sends at most one response on a channel, only on a channel that
/// is open, and the channel is closed by it.
proof fn lemma_at_most_one_response(c: ControllerView, now: u64, event: EventView, channel: u64)
    ensures
        responses_sent(step(c, now, event).1, channel) <= 1,
        responses_sent(step(c, now, event).1, channel) == 1 ==> is_pending(
            c.inbound.table.pending,
            channel,
        ) && !is_pending(step(c, now, event).0.inbound.table.pending, channel),
{
    let actions = step(c, now, event).1;
    if c.finished is None && event is BackendFinished {
        let on = event->BackendFinished_channel;
        assert(actions.len() == 1);
        lemma_single_action_counted(actions, channel);
        crate::exchange::lemma_resolved_is_gone(c.inbound.table.pending, on);
    } else {
        assert(sends_no_response(actions));
        lemma_no_response_counted(actions, channel);
    }
}

/// A channel that was opened and is open no more stays closed, whatever
/// happens.
proof fn lemma_closed_channel_stays_closed(
    c: ControllerView,
    now: u64,
    event: EventView,
    channel: u64,
)
    requires
        controller_wf(c),
        channel < c.inbound.table.next_id,
        !is_pending(c.inbound.table.pending, channel),
    ensures
        channel < step(c, now, event).0.inbound.table.next_id,
        !is_pending(step(c, now, event).0.inbound.table.pending, channel),
{
    let table = c.inbound.table;
    if c.finished is None {
        match event {
            EventView::ConnectionClosed { peer } => {
                crate::exchange::lemma_staying_is_part(table.pending, Rule::Peer(peer), channel);
            },
            EventView::RequestReceived { peer, prompt } => {
                if table.next_id < u64::MAX {
                    let added = crate::exchange::PendingView {
                        id: table.next_id,
                        peer,
                        prompt,
                        deadline: None,
                    };
                    crate::exchange::lemma_handle_never_returns(
                        table,
                        channel,
                        added,
                        Rule::Handle(channel),
                    );
                }
            },
            EventView::BackendFinished { channel: on, outcome } => {
                crate::exchange::lemma_staying_is_part(table.pending, Rule::Handle(on), channel);
            },
            EventView::ChannelAbandoned { channel: on } => {
                crate::exchange::lemma_staying_is_part(table.pending, Rule::Handle(on), channel);
            },
            _ => {},
        }
    }
}

/// Whatever events reach the node, and in whatever order: in one run at
/// most one response is sent on a channel, and none on a channel that was
/// opened and is open no more.
pub proof fn lemma_one_response_per_run(c: ControllerView, events: Seq<Timed>, channel: u64)
    requires
        controller_wf(c),
    ensures
        responses_sent(run(c, events).1, channel) <= 1,
        channel < c.inbound.table.next_id && !is_pending(c.inbound.table.pending, channel)
            ==> responses_sent(run(c, events).1, channel) == 0,
    decreases events.len(),
{
    if events.len() > 0 {
        let first = step(c, events[0].0, events[0].1);
        let rest = run(first.0, events.skip(1));
        lemma_step_keeps_wf(c, events[0].0, events[0].1);
        lemma_one_response_per_run(first.0, events.skip(1), channel);
        lemma_responses_sent_add(first.1, rest.1, channel);
        lemma_at_most_one_response(c, events[0].0, events[0].1, channel);
        if channel < c.inbound.table.next_id && !is_pending(c.inbound.table.pending, channel) {
            lemma_closed_channel_stays_closed(c, events[0].0, events[0].1, channel);
        }
        if responses_sent(first.1, channel) == 1 {
            lemma_channel_was_opened(c, channel);
            lemma_next_channel_grows(c, events[0].0, events[0].1);
        }
    }
}

/// An open channel was opened: its number lies below the next one.
proof fn lemma_channel_was_opened(c: ControllerView, channel: u64)
    requires
        controller_wf(c),
        is_pending(c.inbound.table.pending, channel),
    ensures
        channel < c.inbound.table.next_id,
{
    let pending = c.inbound.table.pending;
    let i = choose|i: int| 0 <= i < pending.len() && (#[trigger] pending[i]).id == channel;
    assert(pending[i].id < c.inbound.table.next_id);
}

/// The number of the next channel never goes down.
proof fn lemma_next_channel_grows(c: ControllerView, now: u64, event: EventView)
    ensures
        c.inbound.table.next_id <= step(c, now, event).0.inbound.table.next_id,
{
}

/// How many of the actions tell the end of the request with this handle.
pub open spec fn resolutions_told(actions: Seq<ActionView>, handle: u64) -> nat
    decreases actions.len(),
{
    if actions.len() == 0 {
        0
    } else {
        resolutions_told(actions.drop_last(), handle) + (if actions.last() matches ActionView::Resolved(
            end,
        ) && end.id == handle {
            1nat
        } else {
            0nat
        })
    }
}

proof fn lemma_resolutions_told_add(first: Seq<ActionView>, second: Seq<ActionView>, handle: u64)
    ensures
        resolutions_told(first + second, handle) == resolutions_told(first, handle)
            + resolutions_told(second, handle),
    decreases second.len(),
{
    if second.len() == 0 {
        assert(first + second =~= first);
    } else {
        lemma_resolutions_told_add(first, second.drop_last(), handle);
        assert((first + second).drop_last() =~= first + second.drop_last());
        assert((first + second).last() == second.last());
    }
}

proof fn lemma_no_resolution_told(actions: Seq<ActionView>, handle: u64)
    requires
        forall|i: int| 0 <= i < actions.len() ==> !(#[trigger] actions[i] is Resolved),
    ensures
        resolutions_told(actions, handle) == 0,
    decreases actions.len(),
{
    if actions.len() > 0 {
        assert forall|i: int| 0 <= i < actions.drop_last().len() implies !(
        #[trigger] actions.drop_last()[i] is Resolved) by {
            assert(actions.drop_last()[i] == actions[i]);
        }
        lemma_no_resolution_told(actions.drop_last(), handle);
        assert(!(actions[actions.len() - 1] is Resolved));
    }
}

/// Of entries with growing handles that all fail, the end of a handle is
/// told once where it is among them, and not at all where it is not.
proof fn lemma_failed_entries_told(
    entries: Seq<PendingView>,
    error: crate::error::RequestError,
    handle: u64,
)
    requires
        forall|i: int, j: int|
            0 <= i < j < entries.len() ==> (#[trigger] entries[i]).id < (#[trigger] entries[j]).id,
    ensures
        resolutions_told(told(failed_with(entries, error)), handle) == (if is_pending(
            entries,
            handle,
        ) {
            1nat
        } else {
            0nat
        }),
    decreases entries.len(),
{
    let actions = told(failed_with(entries, error));
    if entries.len() > 0 {
        let front = entries.drop_last();
        let last = entries[entries.len() - 1];
        assert forall|i: int, j: int| 0 <= i < j < front.len() implies (#[trigger] front[i]).id < (
        #[trigger] front[j]).id by {
            assert(front[i] == entries[i]);
            assert(front[j] == entries[j]);
        }
        lemma_failed_entries_told(front, error, handle);
        assert(actions.drop_last() =~= told(failed_with(front, error)));
        assert(actions.last() == ActionView::Resolved(
            ResolutionView { id: last.id, peer: last.peer, outcome: Err(error) },
        ));
        if is_pending(front, handle) {
            let k = choose|k: int| 0 <= k < front.len() && (#[trigger] front[k]).id == handle;
            assert(entries[k] == front[k]);
            assert(entries[k].id < last.id);
            assert(is_pending(entries, handle));
        }
        if is_pending(entries, handle) && last.id != handle {
            let k = choose|k: int| 0 <= k < entries.len() && (#[trigger] entries[k]).id == handle;
            assert(front[k] == entries[k]);
            assert(is_pending(front, handle));
        }
        if last.id == handle {
            assert(is_pending(entries, handle));
        }
    } else {
        assert(actions =~= Seq::<ActionView>::empty());
        assert(!is_pending(entries, handle));
    }
}

/// A step tells the end of a request at most once, only of a request that
/// is pending, and the request is pending no more after it.
proof fn lemma_at_most_one_resolution(c: ControllerView, now: u64, event: EventView, handle: u64)
    requires
        controller_wf(c),
    ensures
        resolutions_told(step(c, now, event).1, handle) <= 1,
        resolutions_told(step(c, now, event).1, handle) == 1 ==> is_pending(
            c.outbound.pending,
            handle,
        ) && !is_pending(step(c, now, event).0.outbound.pending, handle),
{
    let actions = step(c, now, event).1;
    let pending = c.outbound.pending;
    if c.finished is None {
        match event {
            EventView::ConnectionClosed { peer } => {
                let rule = Rule::Peer(peer);
                let failed = failed_with(leaving(pending, rule), crate::error::RequestError::StreamFailed);
                let tail = actions.skip(told(failed).len() as int);
                assert(actions =~= told(failed) + tail);
                lemma_resolutions_told_add(told(failed), tail, handle);
                lemma_no_resolution_told(tail, handle);
                lemma_staying_wf(c.outbound, rule);
                lemma_failed_entries_told(
                    leaving(pending, rule),
                    crate::error::RequestError::StreamFailed,
                    handle,
                );
                crate::exchange::lemma_staying_is_part(pending, rule, handle);
                crate::exchange::lemma_leaves_or_stays(c.outbound, rule, handle);
            },
            EventView::Tick => {
                let rule = Rule::DueBy(now);
                let failed = failed_with(leaving(pending, rule), crate::error::RequestError::Timeout);
                let head = actions.take(actions.len() - told(failed).len());
                assert(actions =~= head + told(failed));
                lemma_resolutions_told_add(head, told(failed), handle);
                lemma_no_resolution_told(head, handle);
                lemma_staying_wf(c.outbound, rule);
                lemma_failed_entries_told(
                    leaving(pending, rule),
                    crate::error::RequestError::Timeout,
                    handle,
                );
                crate::exchange::lemma_staying_is_part(pending, rule, handle);
                crate::exchange::lemma_leaves_or_stays(c.outbound, rule, handle);
            },
            EventView::ResponseReceived { handle: answered, response } => {
                if is_pending(pending, answered) {
                    let first = seq![actions[0]];
                    let second = seq![actions[1]];
                    assert(actions =~= first + second);
                    lemma_resolutions_told_add(first, second, handle);
                    lemma_single_resolution(first, handle);
                    lemma_single_resolution(second, handle);
                    crate::exchange::lemma_resolved_is_gone(pending, answered);
                } else {
                    lemma_no_resolution_told(actions, handle);
                }
            },
            EventView::RequestFailed { handle: failed, error } => {
                if is_pending(pending, failed) {
                    lemma_single_resolution(actions, handle);
                    crate::exchange::lemma_resolved_is_gone(pending, failed);
                } else {
                    lemma_no_resolution_told(actions, handle);
                }
            },
            _ => {
                lemma_no_resolution_told(actions, handle);
            },
        }
    } else {
        lemma_no_resolution_told(actions, handle);
    }
}

proof fn lemma_single_resolution(actions: Seq<ActionView>, handle: u64)
    requires
        actions.len() == 1,
    ensures
        resolutions_told(actions, handle) == (if actions[0] matches ActionView::Resolved(end)
            && end.id == handle {
            1nat
        } else {
            0nat
        }),
{
    assert(actions.drop_last() =~= Seq::<ActionView>::empty());
    assert(resolutions_told(actions.drop_last(), handle) == 0);
    assert(actions.last() == actions[0]);
}

/// A request that was sent and is pending no more stays so, whatever
/// happens.
proof fn lemma_resolved_request_stays_resolved(
    c: ControllerView,
    now: u64,
    event: EventView,
    handle: u64,
)
    requires
        controller_wf(c),
        handle < c.outbound.next_id,
        !is_pending(c.outbound.pending, handle),
    ensures
        handle < step(c, now, event).0.outbound.next_id,
        !is_pending(step(c, now, event).0.outbound.pending, handle),
{
    let table = c.outbound;
    if c.finished is None {
        match event {
            EventView::ConnectionEstablished { peer } => {
                let after = step(c, now, event).0.outbound;
                if after != table {
                    let added = after.pending[after.pending.len() - 1];
                    assert(after.pending =~= table.pending.push(added));
                    crate::exchange::lemma_handle_never_returns(
                        table,
                        handle,
                        added,
                        Rule::Handle(handle),
                    );
                }
            },
            EventView::ConnectionClosed { peer } => {
                crate::exchange::lemma_staying_is_part(table.pending, Rule::Peer(peer), handle);
            },
            EventView::ResponseReceived { handle: answered, response } => {
                crate::exchange::lemma_staying_is_part(
                    table.pending,
                    Rule::Handle(answered),
                    handle,
                );
            },
            EventView::RequestFailed { handle: failed, error } => {
                crate::exchange::lemma_staying_is_part(table.pending, Rule::Handle(failed), handle);
            },
            EventView::Tick => {
                crate::exchange::lemma_staying_is_part(table.pending, Rule::DueBy(now), handle);
            },
            _ => {},
        }
    }
}

/// Whatever events reach the node, and in whatever order: in one run the
/// end of a request is told at most once, and never again once the request
/// is pending no more.
pub proof fn lemma_one_resolution_per_run(c: ControllerView, events: Seq<Timed>, handle: u64)
    requires
        controller_wf(c),
    ensures
        resolutions_told(run(c, events).1, handle) <= 1,
        handle < c.outbound.next_id && !is_pending(c.outbound.pending, handle)
            ==> resolutions_told(run(c, events).1, handle) == 0,
    decreases events.len(),
{
    if events.len() > 0 {
        let first = step(c, events[0].0, events[0].1);
        let rest = run(first.0, events.skip(1));
        lemma_step_keeps_wf(c, events[0].0, events[0].1);
        lemma_one_resolution_per_run(first.0, events.skip(1), handle);
        lemma_resolutions_told_add(first.1, rest.1, handle);
        lemma_at_most_one_resolution(c, events[0].0, events[0].1, handle);
        if handle < c.outbound.next_id && !is_pending(c.outbound.pending, handle) {
            lemma_resolved_request_stays_resolved(c, events[0].0, events[0].1, handle);
        }
        if resolutions_told(first.1, handle) == 1 {
            let pending = c.outbound.pending;
            let i = choose|i: int| 0 <= i < pending.len() && (#[trigger] pending[i]).id == handle;
            assert(pending[i].id < c.outbound.next_id);
            lemma_next_request_grows(c, events[0].0, events[0].1);
        }
    }
}

/// The handle of the next request never goes down.
proof fn lemma_next_request_grows(c: ControllerView, now: u64, event: EventView)
    ensures
        c.outbound.next_id <= step(c, now, event).0.outbound.next_id,
{
}

} // verus!
