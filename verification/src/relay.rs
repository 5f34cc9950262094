//! The relay client: the life of a reservation with one relay peer.
//!
//! A node that cannot be dialed directly reserves a slot on a relay. While
//! the reservation is live, the relay forwards circuits to the node. A
//! reservation ends at its expiry unless it is renewed before; the node asks
//! for the renewal ahead of time, and a lapse is reported, never silent.
//!
//! The states follow one another in a cycle: from `Idle` a request leads to
//! `Reserving`; a grant leads to `Reserved`, a refusal back to `Idle`; a
//! renewal keeps `Reserved`; the expiry leads to `Expired`, from where a new
//! request leads to `Reserving` again.
//!
//! Times are whole seconds on the caller's clock.

use vstd::prelude::*;

use crate::error::RelayError;
use crate::identity::PeerIdentifier;

verus! {

/// How long before the expiry of a reservation its renewal is asked for, in
/// seconds.
pub const RENEWAL_MARGIN: u64 = 60;

/// How long a relay holds a reservation where it names no expiry, in
/// seconds.
pub const RESERVATION_SECONDS: u64 = 3_600;

/// What a relay allows on each circuit of a reservation.
#[derive(Debug, Clone, Copy, PartialEq, Eq, Structural)]
pub struct ReservationLimits {
    /// The longest time a circuit may last, in seconds.
    pub max_circuit_seconds: u64,
    /// The most bytes a circuit may carry.
    pub max_circuit_bytes: u64,
}

/// A reservation as the relay granted it.
#[derive(Debug, Clone, Copy, PartialEq, Eq, Structural)]
pub struct RelayReservation {
    /// The time from which the reservation is no longer live.
    pub expiry: u64,
    /// The limits on its circuits.
    pub limits: ReservationLimits,
}

/// Where the node stands with one relay.
#[derive(Debug, Clone, Copy, PartialEq, Eq, Structural)]
pub enum RelayState {
    /// No reservation, none asked for.
    Idle,
    /// A reservation was asked for; the relay has not answered.
    Reserving,
    /// The relay granted this reservation. It is live until its expiry.
    /// `renewing` says whether its renewal has been asked for.
    Reserved { reservation: RelayReservation, renewing: bool },
    /// The reservation has lapsed. It must be reserved anew before use.
    Expired,
}

/// The reservation that a grant at `now` stands for where the relay names
/// no expiry: it lasts the usual time from `now`, or to the end of time
/// where that comes first.
pub open spec fn granted_at_spec(now: u64, limits: ReservationLimits) -> RelayReservation {
    RelayReservation {
        expiry: if now + RESERVATION_SECONDS > u64::MAX {
            u64::MAX
        } else {
            (now + RESERVATION_SECONDS) as u64
        },
        limits,
    }
}

impl RelayReservation {
    /// The reservation that a grant at `now` stands for where the relay
    /// names no expiry.
    pub fn granted_at(now: u64, limits: ReservationLimits) -> (reservation: RelayReservation)
        ensures
            reservation == granted_at_spec(now, limits),
    {
        let expiry = if RESERVATION_SECONDS > u64::MAX - now {
            u64::MAX
        } else {
            now + RESERVATION_SECONDS
        };
        RelayReservation { expiry, limits }
    }
}

/// Whether the reservation can carry an inbound circuit at `now`.
pub open spec fn usable_at(state: RelayState, now: u64) -> bool {
    match state {
        RelayState::Reserved { reservation, renewing: _ } => now < reservation.expiry,
        _ => false,
    }
}

/// The state after the node decides to ask for a reservation, and whether a
/// request goes out: it does from `Idle` and from `Expired`.
pub open spec fn begin_spec(state: RelayState) -> (RelayState, bool) {
    match state {
        RelayState::Idle | RelayState::Expired => (RelayState::Reserving, true),
        _ => (state, false),
    }
}

/// Whether now is the time to ask for a renewal: the reservation is live,
/// its expiry is at most `margin` away, and no renewal is asked for yet.
pub open spec fn renewal_due_spec(state: RelayState, now: u64, margin: u64) -> bool {
    match state {
        RelayState::Reserved { reservation, renewing } => !renewing && now < reservation.expiry
            && reservation.expiry - now <= margin,
        _ => false,
    }
}

/// The state after the node looks at whether to renew, and whether a
/// renewal request goes out. The reservation stays as it is meanwhile.
pub open spec fn renew_spec(state: RelayState, now: u64, margin: u64) -> (RelayState, bool) {
    match state {
        RelayState::Reserved { reservation, renewing } => if renewal_due_spec(state, now, margin) {
            (RelayState::Reserved { reservation, renewing: true }, true)
        } else {
            (state, false)
        },
        _ => (state, false),
    }
}

/// The state after the relay grants `reservation` at `now`, and whether the
/// node then holds it. A grant answers a request or renews a reservation,
/// which it replaces; one that is already past its expiry leaves the node
/// without a reservation.
pub open spec fn granted_spec(state: RelayState, reservation: RelayReservation, now: u64) -> (
    RelayState,
    bool,
) {
    match state {
        RelayState::Reserving | RelayState::Reserved { .. } => if now < reservation.expiry {
            (RelayState::Reserved { reservation, renewing: false }, true)
        } else {
            (RelayState::Expired, false)
        },
        _ => (state, false),
    }
}

/// The state after the relay refuses a request. A refused renewal leaves
/// the reservation as it is, to be asked for again.
pub open spec fn refused_spec(state: RelayState) -> RelayState {
    match state {
        RelayState::Reserving => RelayState::Idle,
        RelayState::Reserved { reservation, renewing: _ } => RelayState::Reserved {
            reservation,
            renewing: false,
        },
        _ => state,
    }
}

/// The state at `now`, and whether the reservation lapsed on the way.
pub open spec fn advance_spec(state: RelayState, now: u64) -> (RelayState, bool) {
    match state {
        RelayState::Reserved { reservation, renewing: _ } => if reservation.expiry <= now {
            (RelayState::Expired, true)
        } else {
            (state, false)
        },
        _ => (state, false),
    }
}

impl RelayState {
    /// The state after the node decides to ask for a reservation, and
    /// whether a request is to go out.
    pub fn begin(self) -> (next: (RelayState, bool))
        ensures
            next == begin_spec(self),
    {
        match self {
            RelayState::Idle | RelayState::Expired => (RelayState::Reserving, true),
            _ => (self, false),
        }
    }

    /// Whether now is the time to ask for a renewal.
    pub fn renewal_due(self, now: u64, margin: u64) -> (due: bool)
        ensures
            due == renewal_due_spec(self, now, margin),
    {
        match self {
            RelayState::Reserved { reservation, renewing } => !renewing && now < reservation.expiry
                && reservation.expiry - now <= margin,
            _ => false,
        }
    }

    /// The state after the node looks at whether to renew, and whether a
    /// renewal request is to go out.
    pub fn renew(self, now: u64, margin: u64) -> (next: (RelayState, bool))
        ensures
            next == renew_spec(self, now, margin),
    {
        match self {
            RelayState::Reserved { reservation, renewing } => {
                if self.renewal_due(now, margin) {
                    (RelayState::Reserved { reservation, renewing: true }, true)
                } else {
                    (self, false)
                }
            },
            _ => (self, false),
        }
    }

    /// The state after the relay grants `reservation` at `now`, and whether
    /// the node then holds it.
    pub fn granted(self, reservation: RelayReservation, now: u64) -> (next: (RelayState, bool))
        ensures
            next == granted_spec(self, reservation, now),
    {
        match self {
            RelayState::Reserving | RelayState::Reserved { .. } => {
                if now < reservation.expiry {
                    (RelayState::Reserved { reservation, renewing: false }, true)
                } else {
                    (RelayState::Expired, false)
                }
            },
            _ => (self, false),
        }
    }

    /// The state after the relay refuses a request.
    pub fn refused(self) -> (next: RelayState)
        ensures
            next == refused_spec(self),
    {
        match self {
            RelayState::Reserving => RelayState::Idle,
            RelayState::Reserved { reservation, renewing: _ } => RelayState::Reserved {
                reservation,
                renewing: false,
            },
            _ => self,
        }
    }

    /// The state at `now`, and whether the reservation lapsed on the way.
    pub fn advance(self, now: u64) -> (next: (RelayState, bool))
        ensures
            next == advance_spec(self, now),
    {
        match self {
            RelayState::Reserved { reservation, renewing: _ } => {
                if reservation.expiry <= now {
                    (RelayState::Expired, true)
                } else {
                    (self, false)
                }
            },
            _ => (self, false),
        }
    }

    /// Whether the reservation can carry an inbound circuit at `now`.
    pub fn is_usable(self, now: u64) -> (usable: bool)
        ensures
            usable == usable_at(self, now),
    {
        match self {
            RelayState::Reserved { reservation, renewing: _ } => now < reservation.expiry,
            _ => false,
        }
    }
}

/// The node's standing with one relay peer. It holds at most one
/// reservation at a time.
#[derive(Debug)]
pub struct RelayLink {
    relay: PeerIdentifier,
    state: RelayState,
}

impl RelayLink {
    /// The relay peer.
    pub closed spec fn relay_view(&self) -> Seq<char> {
        self.relay@
    }

    /// The state.
    pub closed spec fn state_view(&self) -> RelayState {
        self.state
    }

    /// The link to `relay`, with no reservation.
    pub fn new(relay: PeerIdentifier) -> (link: RelayLink)
        ensures
            link.relay_view() == relay@,
            link.state_view() == RelayState::Idle,
    {
        RelayLink { relay, state: RelayState::Idle }
    }

    /// The relay peer.
    pub fn relay(&self) -> (relay: &PeerIdentifier)
        ensures
            relay@ == self.relay_view(),
    {
        &self.relay
    }

    /// The state.
    pub fn state(&self) -> (state: RelayState)
        ensures
            state == self.state_view(),
    {
        self.state
    }

    /// Decides to ask the relay for a reservation. Says whether a request
    /// is to go out.
    pub fn reserve(&mut self) -> (send: bool)
        ensures
            final(self).relay_view() == old(self).relay_view(),
            final(self).state_view() == begin_spec(old(self).state_view()).0,
            send == begin_spec(old(self).state_view()).1,
    {
        let (state, send) = self.state.begin();
        self.state = state;
        send
    }

    /// Looks at whether the reservation is to be renewed now. Says whether
    /// a renewal request is to go out.
    pub fn renew(&mut self, now: u64, margin: u64) -> (send: bool)
        ensures
            final(self).relay_view() == old(self).relay_view(),
            final(self).state_view() == renew_spec(old(self).state_view(), now, margin).0,
            send == renew_spec(old(self).state_view(), now, margin).1,
    {
        let (state, send) = self.state.renew(now, margin);
        self.state = state;
        send
    }

    /// Takes the relay's grant of `reservation`, received at `now`. Says
    /// whether the node now holds it.
    pub fn granted(&mut self, reservation: RelayReservation, now: u64) -> (held: bool)
        ensures
            final(self).relay_view() == old(self).relay_view(),
            final(self).state_view() == granted_spec(old(self).state_view(), reservation, now).0,
            held == granted_spec(old(self).state_view(), reservation, now).1,
    {
        let (state, held) = self.state.granted(reservation, now);
        self.state = state;
        held
    }

    /// Takes the relay's refusal. The error is handed back to be reported.
    pub fn refused(&mut self) -> (error: RelayError)
        ensures
            final(self).relay_view() == old(self).relay_view(),
            final(self).state_view() == refused_spec(old(self).state_view()),
            error == RelayError::Refused,
    {
        self.state = self.state.refused();
        RelayError::Refused
    }

    /// Brings the link to `now`. Says whether the reservation lapsed: from
    /// then on the relay forwards no circuit, which the caller reports.
    pub fn advance(&mut self, now: u64) -> (lapsed: bool)
        ensures
            final(self).relay_view() == old(self).relay_view(),
            final(self).state_view() == advance_spec(old(self).state_view(), now).0,
            lapsed == advance_spec(old(self).state_view(), now).1,
    {
        let (state, lapsed) = self.state.advance(now);
        self.state = state;
        lapsed
    }

    /// Whether the node may rely on the reservation for inbound circuits at
    /// `now`. Without a live reservation it must reserve first.
    pub fn rely_on(&self, now: u64) -> (live: Result<(), RelayError>)
        ensures
            live is Ok <==> usable_at(self.state_view(), now),
            live matches Err(e) ==> e == RelayError::ReservationExpired,
    {
        if self.state.is_usable(now) {
            Ok(())
        } else {
            Err(RelayError::ReservationExpired)
        }
    }

    /// What the relay answers a third party that asks at `now` for a circuit
    /// to the node: without a live reservation the node is unreachable.
    pub fn admit_circuit(&self, now: u64) -> (admitted: Result<(), RelayError>)
        ensures
            admitted is Ok <==> usable_at(self.state_view(), now),
            admitted matches Err(e) ==> e == RelayError::TargetUnreachable,
    {
        if self.state.is_usable(now) {
            Ok(())
        } else {
            Err(RelayError::TargetUnreachable)
        }
    }
}

/// A reservation that is renewed while it is live stays usable without a
/// gap: from the renewal on, at every time before the new expiry. Where the
/// new expiry lies beyond the old one, that covers the old expiry itself.
pub proof fn lemma_renewal_leaves_no_gap(
    held: RelayReservation,
    renewing: bool,
    renewed: RelayReservation,
    renewed_at: u64,
    t: u64,
)
    requires
        renewed_at < held.expiry,
        held.expiry <= renewed.expiry,
        renewed_at <= t < renewed.expiry,
    ensures
        ({
            let before = RelayState::Reserved { reservation: held, renewing };
            let after = granted_spec(before, renewed, renewed_at);
            &&& usable_at(before, renewed_at)
            &&& after.1
            &&& usable_at(after.0, t)
            &&& advance_spec(after.0, t) == (after.0, false)
            &&& held.expiry < renewed.expiry ==> usable_at(after.0, held.expiry)
        }),
{
}

/// The renewal is asked for in time: whenever the node looks at the clock
/// within the margin before the expiry, the request goes out, once, and the
/// reservation stays usable while the answer is awaited.
pub proof fn lemma_renewal_is_asked_in_time(held: RelayReservation, now: u64, margin: u64)
    requires
        now < held.expiry,
        held.expiry - now <= margin,
    ensures
        ({
            let before = RelayState::Reserved { reservation: held, renewing: false };
            let asked = renew_spec(before, now, margin);
            &&& asked.1
            &&& asked.0 == RelayState::Reserved { reservation: held, renewing: true }
            &&& usable_at(asked.0, now)
            &&& !renew_spec(asked.0, now, margin).1
        }),
{
}

/// A reservation that is not renewed is unusable from its expiry on, and
/// the lapse is seen at the first step after it.
pub proof fn lemma_lapse_is_seen(held: RelayReservation, renewing: bool, t: u64)
    requires
        held.expiry <= t,
    ensures
        !usable_at(RelayState::Reserved { reservation: held, renewing }, t),
        advance_spec(RelayState::Reserved { reservation: held, renewing }, t) == (
            RelayState::Expired,
            true,
        ),
        forall|later: u64| !usable_at(RelayState::Expired, later),
{
}

/// The states follow the cycle: a request leads to `Reserving` or changes
/// nothing; a grant that nobody asked for changes nothing; a grant that
/// takes effect replaces what was held, so that the node holds one
/// reservation and no more; only a reservation can lapse.
pub proof fn lemma_states_follow_the_cycle(
    state: RelayState,
    reservation: RelayReservation,
    now: u64,
)
    ensures
        begin_spec(state).0 is Reserving || begin_spec(state).0 == state,
        state is Idle ==> granted_spec(state, reservation, now).0 is Idle,
        state is Expired ==> granted_spec(state, reservation, now).0 is Expired,
        granted_spec(state, reservation, now).1 ==> granted_spec(state, reservation, now).0 == (
        RelayState::Reserved { reservation, renewing: false }),
        advance_spec(state, now).1 ==> state is Reserved && advance_spec(state, now).0 is Expired,
        !(refused_spec(state) is Reserving),
{
}

} // verus!
