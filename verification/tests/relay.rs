use mesh_ai_node::error::RelayError;
use mesh_ai_node::identity::PeerIdentifier;
use mesh_ai_node::relay::RelayLink;
use mesh_ai_node::relay::RelayReservation;
use mesh_ai_node::relay::RelayState;
use mesh_ai_node::relay::ReservationLimits;
use mesh_ai_node::relay::RENEWAL_MARGIN;
use mesh_ai_node::relay::RESERVATION_SECONDS;

fn relay() -> PeerIdentifier {
    PeerIdentifier::parse("12D3KooWDpJ7As7BWAwRMfu1VU2WCqNjvq387JEYKDBj4kx6nXTN").unwrap()
}

fn until(expiry: u64) -> RelayReservation {
    RelayReservation {
        expiry,
        limits: ReservationLimits { max_circuit_seconds: 120, max_circuit_bytes: 1 << 17 },
    }
}

#[test]
fn renewal_margin_is_a_minute() {
    assert_eq!(RENEWAL_MARGIN, 60);
}

#[test]
fn grant_without_expiry_lasts_an_hour() {
    let limits = ReservationLimits { max_circuit_seconds: 120, max_circuit_bytes: 1 << 17 };
    assert_eq!(RESERVATION_SECONDS, 3_600);
    assert_eq!(RelayReservation::granted_at(100, limits), RelayReservation { expiry: 3_700, limits });
    assert_eq!(RelayReservation::granted_at(u64::MAX - 5, limits).expiry, u64::MAX);
}

#[test]
fn link_starts_idle() {
    let mut link = RelayLink::new(relay());
    assert_eq!(link.relay(), &relay());
    assert_eq!(link.state(), RelayState::Idle);
    assert_eq!(link.rely_on(0), Err(RelayError::ReservationExpired));
    assert_eq!(link.admit_circuit(0), Err(RelayError::TargetUnreachable));
    assert!(!link.state().renewal_due(0, u64::MAX));
    assert!(!link.renew(0, u64::MAX));
}

#[test]
fn reservation_goes_from_idle_to_reserved() {
    let mut link = RelayLink::new(relay());
    assert!(link.reserve());
    assert_eq!(link.state(), RelayState::Reserving);
    assert!(!link.reserve());
    assert_eq!(link.admit_circuit(10), Err(RelayError::TargetUnreachable));
    assert!(link.granted(until(1_000), 10));
    assert_eq!(link.state(), RelayState::Reserved { reservation: until(1_000), renewing: false });
    assert!(!link.reserve());
    assert_eq!(link.rely_on(10), Ok(()));
    assert_eq!(link.admit_circuit(999), Ok(()));
}

#[test]
fn refusal_leads_back_to_idle() {
    let mut link = RelayLink::new(relay());
    assert!(link.reserve());
    assert_eq!(link.refused(), RelayError::Refused);
    assert_eq!(link.state(), RelayState::Idle);
    assert!(link.reserve());
}

#[test]
fn refused_renewal_keeps_the_reservation_until_it_expires() {
    let mut link = RelayLink::new(relay());
    link.reserve();
    link.granted(until(500), 0);
    assert_eq!(link.refused(), RelayError::Refused);
    assert_eq!(link.state(), RelayState::Reserved { reservation: until(500), renewing: false });
    assert_eq!(link.admit_circuit(499), Ok(()));
}

#[test]
fn grant_that_nobody_asked_for_is_ignored() {
    let mut link = RelayLink::new(relay());
    assert!(!link.granted(until(1_000), 0));
    assert_eq!(link.state(), RelayState::Idle);
}

#[test]
fn grant_past_its_expiry_leaves_no_reservation() {
    let mut link = RelayLink::new(relay());
    link.reserve();
    assert!(!link.granted(until(100), 100));
    assert_eq!(link.state(), RelayState::Expired);
}

#[test]
fn renewal_before_expiry_leaves_no_gap() {
    let mut link = RelayLink::new(relay());
    link.reserve();
    assert!(link.granted(until(1_000), 0));
    assert!(!link.state().renewal_due(899, 100));
    assert!(!link.renew(899, 100));
    assert!(link.state().renewal_due(900, 100));
    assert!(link.renew(900, 100));
    assert_eq!(link.state(), RelayState::Reserved { reservation: until(1_000), renewing: true });
    assert!(!link.renew(901, 100));
    assert_eq!(link.admit_circuit(950), Ok(()));
    assert!(link.granted(until(2_000), 990));
    assert_eq!(link.state(), RelayState::Reserved { reservation: until(2_000), renewing: false });
    for now in [990, 999, 1_000, 1_001, 1_500, 1_999] {
        assert!(!link.advance(now), "lapsed at {now}");
        assert_eq!(link.admit_circuit(now), Ok(()), "gap at {now}");
        assert_eq!(link.rely_on(now), Ok(()), "gap at {now}");
    }
    assert_eq!(link.admit_circuit(2_000), Err(RelayError::TargetUnreachable));
}

#[test]
fn expiry_without_renewal_makes_the_node_unreachable() {
    let mut link = RelayLink::new(relay());
    link.reserve();
    assert!(link.granted(until(1_000), 0));
    assert_eq!(link.admit_circuit(999), Ok(()));
    assert_eq!(link.admit_circuit(1_000), Err(RelayError::TargetUnreachable));
    assert_eq!(link.rely_on(1_000), Err(RelayError::ReservationExpired));
    assert!(link.advance(1_000));
    assert_eq!(link.state(), RelayState::Expired);
    assert!(!link.advance(1_001));
    assert_eq!(link.admit_circuit(1_001), Err(RelayError::TargetUnreachable));
    assert_eq!(link.admit_circuit(5), Err(RelayError::TargetUnreachable));
    assert!(!link.granted(until(9_000), 1_002));
    assert!(link.reserve());
    assert!(link.granted(until(9_000), 1_003));
    assert_eq!(link.admit_circuit(1_003), Ok(()));
}

#[test]
fn refused_renewal_is_asked_for_again() {
    let mut link = RelayLink::new(relay());
    link.reserve();
    link.granted(until(500), 0);
    assert!(link.renew(450, 60));
    assert_eq!(link.refused(), RelayError::Refused);
    assert_eq!(link.state(), RelayState::Reserved { reservation: until(500), renewing: false });
    assert!(link.renew(451, 60));
    assert!(!link.renew(500, 60));
}

#[test]
fn state_steps_are_values() {
    let state = RelayState::Idle;
    assert_eq!(state.begin(), (RelayState::Reserving, true));
    assert_eq!(RelayState::Reserving.begin(), (RelayState::Reserving, false));
    assert_eq!(RelayState::Expired.begin(), (RelayState::Reserving, true));
    let short = RelayState::Reserved { reservation: until(5), renewing: false };
    assert_eq!(RelayState::Reserving.granted(until(5), 4), (short, true));
    assert_eq!(short.advance(4), (short, false));
    assert_eq!(short.advance(5), (RelayState::Expired, true));
    let held = RelayState::Reserved { reservation: until(100), renewing: false };
    assert_eq!(held.renew(39, 60), (held, false));
    assert_eq!(
        held.renew(40, 60),
        (RelayState::Reserved { reservation: until(100), renewing: true }, true)
    );
    assert_eq!(held.renew(100, 60), (held, false));
    assert_eq!(RelayState::Idle.renew(0, 60), (RelayState::Idle, false));
    assert_eq!(RelayState::Reserving.refused(), RelayState::Idle);
    assert_eq!(RelayState::Expired.refused(), RelayState::Expired);
    assert!(short.is_usable(4));
    assert!(!short.is_usable(5));
    assert!(!RelayState::Reserving.is_usable(0));
}
