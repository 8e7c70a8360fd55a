use earendil::addr::Fingerprint;
use earendil::link_node::link::{
    CloseReason, Link, LinkPolicy, LinkRecv, LinkSend, LinkState, DEFAULT_GRACE_SECS,
};
use earendil::link_node::types::{LinkPaymentInfo, NeighborId};
use earendil::socket::SocketSendError;

fn info(price: i64, debt_limit: i64) -> LinkPaymentInfo {
    LinkPaymentInfo { price, debt_limit, paysystem_name_addrs: vec![] }
}

fn policy(margin: i64, max_settle_failures: u32) -> LinkPolicy {
    LinkPolicy { margin, max_settle_failures, grace_secs: DEFAULT_GRACE_SECS }
}

fn live(price: i64, debt_limit: i64, margin: i64, max_failures: u32) -> Link {
    let neighbor = NeighborId::Relay(Fingerprint::from_bytes([3; 20]));
    let mut link = Link::new(neighbor, &info(price, debt_limit), policy(margin, max_failures));
    assert_eq!(link.current_state(), LinkState::Handshaking);
    link.on_handshake(true);
    assert_eq!(link.current_state(), LinkState::Live);
    link
}

#[test]
fn eleventh_send_waits_for_settlement() {
    let mut link = live(1, 10, 0, 3);
    for sent in 1..=10i64 {
        assert_eq!(link.send(), Ok(LinkSend::Sent));
        assert_eq!(link.current_balance(), -sent);
    }
    assert_eq!(link.send(), Ok(LinkSend::SettlementNeeded));
    assert_eq!(link.current_state(), LinkState::Throttled);
    assert_eq!(link.current_balance(), -10);
    assert_eq!(link.send(), Ok(LinkSend::Paused));
    assert_eq!(link.current_balance(), -10);
}

#[test]
fn settlement_failing_closes_with_payment_refused() {
    let mut link = live(1, 10, 0, 3);
    for _ in 0..10 {
        assert_eq!(link.send(), Ok(LinkSend::Sent));
    }
    assert_eq!(link.send(), Ok(LinkSend::SettlementNeeded));
    assert!(link.begin_settlement());
    assert_eq!(link.current_state(), LinkState::Settling);
    assert!(!link.settlement_failed());
    assert!(!link.settlement_failed());
    assert_eq!(link.send(), Ok(LinkSend::Paused));
    assert!(link.settlement_failed());
    assert_eq!(link.current_state(), LinkState::Closed);
    assert_eq!(link.why_closed(), Some(CloseReason::PaymentRefused));
    assert_eq!(link.send(), Err(SocketSendError::PaymentRefused));
}

#[test]
fn settlement_makes_the_link_live_again() {
    let mut link = live(2, 10, 0, 3);
    for _ in 0..5 {
        assert_eq!(link.send(), Ok(LinkSend::Sent));
    }
    assert_eq!(link.send(), Ok(LinkSend::SettlementNeeded));
    assert!(link.begin_settlement());
    assert!(!link.settlement_failed());
    link.settlement_succeeded(6);
    assert_eq!(link.current_state(), LinkState::Live);
    assert_eq!(link.current_balance(), -4);
    assert_eq!(link.send(), Ok(LinkSend::Sent));
    assert_eq!(link.send(), Ok(LinkSend::Sent));
    assert_eq!(link.send(), Ok(LinkSend::Sent));
    assert_eq!(link.current_balance(), -10);
    assert_eq!(link.send(), Ok(LinkSend::SettlementNeeded));
}

#[test]
fn balance_is_receipts_minus_sends_times_price_plus_settlements() {
    let mut link = live(3, 100, 10, 1);
    for _ in 0..7 {
        assert_eq!(link.send(), Ok(LinkSend::Sent));
    }
    for _ in 0..2 {
        assert_eq!(link.on_receive(), LinkRecv::Accepted);
    }
    assert_eq!(link.current_balance(), (2 - 7) * 3);
}

#[test]
fn margin_moves_the_floor_and_the_ceiling() {
    // floor = -10 + 4 = -6, ceiling = 10 - 4 = 6
    let mut link = live(2, 10, 4, 1);
    assert_eq!(link.send(), Ok(LinkSend::Sent));
    assert_eq!(link.send(), Ok(LinkSend::Sent));
    assert_eq!(link.send(), Ok(LinkSend::Sent));
    assert_eq!(link.current_balance(), -6);
    assert_eq!(link.send(), Ok(LinkSend::SettlementNeeded));

    let mut link = live(2, 10, 4, 1);
    assert_eq!(link.on_receive(), LinkRecv::Accepted);
    assert_eq!(link.on_receive(), LinkRecv::Accepted);
    assert_eq!(link.on_receive(), LinkRecv::Accepted);
    assert_eq!(link.current_balance(), 6);
    assert_eq!(link.on_receive(), LinkRecv::CreditDue);
    assert_eq!(link.current_balance(), 8);
}

#[test]
fn handshake_failure_and_transport_error_close_the_link() {
    let neighbor = NeighborId::Client(9);
    let mut link = Link::new(neighbor, &info(1, 10), policy(0, 3));
    assert_eq!(link.send(), Err(SocketSendError::NoRoute));
    assert_eq!(link.on_receive(), LinkRecv::Dropped);
    link.on_handshake(false);
    assert_eq!(link.current_state(), LinkState::Closed);
    assert_eq!(link.why_closed(), Some(CloseReason::AuthFailure));
    assert_eq!(link.send(), Err(SocketSendError::NoRoute));
    link.on_handshake(true);
    assert_eq!(link.current_state(), LinkState::Closed);

    let mut link = live(1, 10, 0, 3);
    link.on_auth_failure();
    assert_eq!(link.why_closed(), Some(CloseReason::AuthFailure));
    link.on_transport_error();
    assert_eq!(link.why_closed(), Some(CloseReason::AuthFailure));

    let mut link = live(1, 10, 0, 3);
    link.on_transport_error();
    assert_eq!(link.current_state(), LinkState::Closed);
    assert_eq!(link.why_closed(), Some(CloseReason::Transport));
    assert_eq!(link.send(), Err(SocketSendError::NoRoute));
    assert_eq!(link.on_receive(), LinkRecv::Dropped);
    assert!(!link.begin_settlement());
}

#[test]
fn throttled_past_grace_is_closed() {
    let mut link = live(1, 0, 0, 3);
    assert_eq!(link.send(), Ok(LinkSend::SettlementNeeded));
    assert!(!link.on_tick(30));
    assert!(!link.on_tick(30));
    assert_eq!(link.current_state(), LinkState::Throttled);
    assert!(link.on_tick(1));
    assert_eq!(link.current_state(), LinkState::Closed);
    assert_eq!(link.why_closed(), Some(CloseReason::DebtOverdue));
    assert_eq!(link.send(), Err(SocketSendError::PaymentRefused));

    let mut link = live(1, 10, 0, 3);
    assert!(!link.on_tick(u64::MAX));
    assert_eq!(link.current_state(), LinkState::Live);
}

#[test]
fn counters_are_guarded_against_overflow() {
    // a negative price credits the sender; the first debit already overflows
    let link = live(i64::MIN, 10, 0, 3);
    assert!(!link.send_fits());
    assert!(link.receive_fits());

    let mut link = live(i64::MAX, i64::MAX, 0, 3);
    assert_eq!(link.terms().0, i64::MAX);
    assert_eq!(link.terms().1, i64::MAX);
    assert!(link.send_fits());
    assert_eq!(link.send(), Ok(LinkSend::Sent));
    assert_eq!(link.current_balance(), -i64::MAX);
    // the next debit would cross the floor: it is held, whatever its size
    assert!(link.send_fits());
    assert_eq!(link.send(), Ok(LinkSend::SettlementNeeded));
    assert!(link.begin_settlement());
    assert!(link.settlement_fits(i64::MAX));
    assert!(!link.settlement_fits(-2));
    link.settlement_succeeded(i64::MAX);
    assert_eq!(link.current_balance(), 0);
    assert!(link.receive_fits());
    // the balance reaches the ceiling, but does not go over it
    assert_eq!(link.on_receive(), LinkRecv::Accepted);
    assert_eq!(link.current_balance(), i64::MAX);
    assert!(!link.receive_fits());
}
