use earendil::addr::Fingerprint;
use earendil::haven::{HavenLocator, HAVEN_FORWARD_DOCK};
use earendil::socket::haven_socket::{
    registration_step, DhtLookup, HavenSendStep, HavenSocket, RegistrationAction,
    RegistrationEvent, RegistrationPhase, REGISTER_REFRESH_SECS, REGISTER_RETRY_SECS,
    REGISTER_TIMEOUT_SECS,
};
use earendil::socket::n2r_socket::{DockTable, EPHEMERAL_DOCK_MIN};
use earendil::socket::{Endpoint, SocketBindError, SocketRecvError, SocketSendError};

fn fp(fill: u8) -> Fingerprint {
    Fingerprint::from_bytes([fill; 20])
}

fn bound(at: Endpoint, rendezvous: Option<Fingerprint>) -> HavenSocket {
    let mut table = DockTable::new();
    HavenSocket::bind(&mut table, at.fingerprint, Some(at.dock), rendezvous).unwrap()
}

#[test]
fn server_sends_through_its_own_rendezvous() {
    let derek = Endpoint::new(fp(4), 700);
    let alice = Endpoint::new(fp(1), 900);
    let socket = bound(derek, Some(fp(3)));
    match socket.send_to(b"Hello, dear Alice!".to_vec(), alice) {
        HavenSendStep::Transmit { payload, to } => {
            assert_eq!(to, Endpoint::new(fp(3), HAVEN_FORWARD_DOCK));
            let mut expected = vec![18u8];
            expected.extend_from_slice(b"Hello, dear Alice!");
            expected.extend_from_slice(&[1u8; 20]);
            expected.extend_from_slice(&[251, 0x84, 0x03]);
            assert_eq!(payload, expected);
        }
        other => panic!("a server must not look up: {:?}", other),
    }
}

fn locator_of(server: &HavenSocket) -> HavenLocator {
    HavenLocator {
        identity: server.skt_info().fingerprint,
        onion_pk: server.onion_pk(),
        rendezvous_point: server.rendezvous_point().unwrap(),
        signature: vec![],
    }
}

#[test]
fn client_looks_up_then_sends_sealed_to_the_peer_rendezvous() {
    let derek = Endpoint::new(fp(4), 700);
    let alice = Endpoint::new(fp(1), 900);
    let client = bound(alice, None);
    let server = bound(derek, Some(fp(3)));
    let body = b"Hello, anonymous Derek!".to_vec();
    let (kept, addressed) = match client.send_to(body.clone(), derek) {
        HavenSendStep::Lookup { body, endpoint } => (body, endpoint),
        other => panic!("a client must look up first: {:?}", other),
    };
    assert_eq!(kept, body);
    assert_eq!(addressed, derek);
    let (sent, to) = client
        .send_after_lookup(kept, addressed, DhtLookup::Found(locator_of(&server)))
        .unwrap();
    assert_eq!(to, Endpoint::new(fp(3), HAVEN_FORWARD_DOCK));
    // the rendezvous relay sees the endpoint, not the body
    assert!(!sent.windows(body.len()).any(|window| window == &body[..]));
    assert_eq!(sent[0] as usize, body.len() + 48);
    assert_eq!(sent[sent.len() - 23..sent.len() - 3].to_vec(), vec![4u8; 20]);

    assert_eq!(server.recv_from(Ok(sent.clone())), Ok((body, derek)));
}

#[test]
fn sealing_is_fresh_for_every_message() {
    let derek = Endpoint::new(fp(4), 700);
    let client = bound(Endpoint::new(fp(1), 900), None);
    let server = bound(derek, Some(fp(3)));
    let send = |body: &[u8]| {
        client
            .send_after_lookup(body.to_vec(), derek, DhtLookup::Found(locator_of(&server)))
            .unwrap()
            .0
    };
    let first = send(b"same");
    let second = send(b"same");
    assert_ne!(first, second);
    assert_eq!(server.recv_from(Ok(first.clone())), Ok((b"same".to_vec(), derek)));
    assert_eq!(server.recv_from(Ok(second.clone())), Ok((b"same".to_vec(), derek)));
}

#[test]
fn server_refuses_what_was_not_sealed_for_it() {
    let derek = Endpoint::new(fp(4), 700);
    let client = bound(Endpoint::new(fp(1), 900), None);
    let server = bound(derek, Some(fp(3)));
    let other = bound(Endpoint::new(fp(5), 700), Some(fp(3)));
    let (sent, _) = client
        .send_after_lookup(b"for derek".to_vec(), derek, DhtLookup::Found(locator_of(&server)))
        .unwrap();
    assert_eq!(other.recv_from(Ok(sent.clone())), Err(SocketRecvError::HavenMsgBadFormat));
    // a frame whose body is not sealed at all
    let plain = match server.send_to(b"plain".to_vec(), derek) {
        HavenSendStep::Transmit { payload, .. } => payload,
        other => panic!("a server must not look up: {:?}", other),
    };
    assert_eq!(server.recv_from(Ok(plain.clone())), Err(SocketRecvError::HavenMsgBadFormat));
    let mut tampered = sent.clone();
    tampered[40] ^= 1;
    assert_eq!(server.recv_from(Ok(tampered.clone())), Err(SocketRecvError::HavenMsgBadFormat));
}

#[test]
fn client_takes_the_reply_of_a_server_as_it_stands() {
    let derek = Endpoint::new(fp(4), 700);
    let alice = Endpoint::new(fp(1), 900);
    let client = bound(alice, None);
    let server = bound(derek, Some(fp(3)));
    let payload = match server.send_to(b"Hello, dear Alice!".to_vec(), alice) {
        HavenSendStep::Transmit { payload, .. } => payload,
        other => panic!("a server must not look up: {:?}", other),
    };
    assert_eq!(client.recv_from(Ok(payload.clone())), Ok((b"Hello, dear Alice!".to_vec(), alice)));
}

#[test]
fn dht_miss_fails_the_send() {
    let socket = bound(Endpoint::new(fp(1), 900), None);
    let derek = Endpoint::new(fp(4), 700);
    assert_eq!(
        socket.send_after_lookup(vec![1, 2, 3], derek, DhtLookup::Missing),
        Err(SocketSendError::DhtError)
    );
    assert_eq!(
        socket.send_after_lookup(vec![1, 2, 3], derek, DhtLookup::Failed),
        Err(SocketSendError::DhtError)
    );
}

#[test]
fn undecodable_message_is_bad_format() {
    let socket = bound(Endpoint::new(fp(1), 900), None);
    assert_eq!(socket.recv_from(Ok(vec![])), Err(SocketRecvError::HavenMsgBadFormat));
    assert_eq!(socket.recv_from(Ok(vec![5, 1, 2])), Err(SocketRecvError::HavenMsgBadFormat));
    // a well-formed frame followed by one more byte is refused too
    let mut frame = vec![1u8, 0x41];
    frame.extend_from_slice(&[7u8; 20]);
    frame.push(9);
    assert_eq!(
        socket.recv_from(Ok(frame.clone())),
        Ok((vec![0x41], Endpoint::new(fp(7), 9)))
    );
    frame.push(0);
    assert_eq!(socket.recv_from(Ok(frame.clone())), Err(SocketRecvError::HavenMsgBadFormat));
}

#[test]
fn failure_of_the_n2r_socket_is_handed_on() {
    let client = bound(Endpoint::new(fp(1), 900), None);
    let server = bound(Endpoint::new(fp(4), 700), Some(fp(3)));
    assert_eq!(
        client.recv_from(Err(SocketRecvError::N2rRecvError)),
        Err(SocketRecvError::N2rRecvError)
    );
    assert_eq!(
        server.recv_from(Err(SocketRecvError::N2rRecvError)),
        Err(SocketRecvError::N2rRecvError)
    );
}

#[test]
fn sockets_have_their_own_onion_keys() {
    let one = bound(Endpoint::new(fp(8), 12), Some(fp(2)));
    let two = bound(Endpoint::new(fp(8), 12), Some(fp(2)));
    assert_ne!(one.onion_pk(), two.onion_pk());
    assert_ne!(one.onion_pk(), [0u8; 32]);
}

#[test]
fn skt_info_is_the_bound_endpoint() {
    let ep = Endpoint::new(fp(8), 12);
    assert_eq!(bound(ep, None).skt_info(), ep);
    assert_eq!(bound(ep, Some(fp(2))).skt_info(), ep);
}

#[test]
fn bind_reserves_the_endpoint() {
    let mut table = DockTable::new();
    let first = HavenSocket::bind(&mut table, fp(1), Some(77), None).unwrap();
    assert_eq!(first.skt_info(), Endpoint::new(fp(1), 77));
    assert!(table.contains(&Endpoint::new(fp(1), 77)));
    assert_eq!(
        HavenSocket::bind(&mut table, fp(1), Some(77), Some(fp(3))).err(),
        Some(SocketBindError::DockInUse)
    );
    // another identity may use the same dock
    assert!(HavenSocket::bind(&mut table, fp(2), Some(77), None).is_ok());
    let picked = HavenSocket::bind(&mut table, fp(1), None, None).unwrap();
    assert_eq!(picked.skt_info(), Endpoint::new(fp(1), EPHEMERAL_DOCK_MIN));
    let next = HavenSocket::bind(&mut table, fp(1), None, None).unwrap();
    assert_eq!(next.skt_info(), Endpoint::new(fp(1), EPHEMERAL_DOCK_MIN + 1));
}

#[test]
fn server_registers_publishes_and_rests() {
    let mut socket = bound(Endpoint::new(fp(4), 700), Some(fp(3)));
    assert_eq!(socket.rendezvous_point(), Some(fp(3)));
    assert_eq!(socket.registration_phase(), RegistrationPhase::Idle);
    let onion_pk = socket.onion_pk();
    let register = RegistrationAction::Register {
        identity: fp(4),
        onion_pk,
        rendezvous: fp(3),
        timeout_secs: 30,
    };
    assert_eq!(socket.on_registration_event(RegistrationEvent::Started), register);
    assert_eq!(socket.registration_phase(), RegistrationPhase::Registering);
    assert_eq!(
        socket.on_registration_event(RegistrationEvent::Accepted),
        RegistrationAction::Publish {
            identity: fp(4),
            onion_pk,
            rendezvous: fp(3),
            timeout_secs: 30
        }
    );
    assert_eq!(
        socket.on_registration_event(RegistrationEvent::Published),
        RegistrationAction::Sleep { secs: 3000 }
    );
    assert_eq!(socket.registration_phase(), RegistrationPhase::Resting);
    assert_eq!(socket.on_registration_event(RegistrationEvent::Woke), register);
    assert_eq!(socket.registration_phase(), RegistrationPhase::Registering);
}

#[test]
fn failed_registration_is_retried_after_a_second() {
    let mut socket = bound(Endpoint::new(fp(4), 700), Some(fp(3)));
    let register = RegistrationAction::Register {
        identity: fp(4),
        onion_pk: socket.onion_pk(),
        rendezvous: fp(3),
        timeout_secs: 30,
    };
    socket.on_registration_event(RegistrationEvent::Started);
    assert_eq!(
        socket.on_registration_event(RegistrationEvent::Refused),
        RegistrationAction::Sleep { secs: 1 }
    );
    assert_eq!(socket.registration_phase(), RegistrationPhase::Retrying);
    assert_eq!(socket.on_registration_event(RegistrationEvent::Woke), register);
    assert_eq!(
        socket.on_registration_event(RegistrationEvent::TimedOut),
        RegistrationAction::Sleep { secs: 1 }
    );
    assert_eq!(socket.on_registration_event(RegistrationEvent::Woke), register);
    // an event that does not belong to the phase changes nothing
    assert_eq!(
        socket.on_registration_event(RegistrationEvent::Published),
        RegistrationAction::Ignore
    );
    assert_eq!(socket.registration_phase(), RegistrationPhase::Registering);
}

#[test]
fn publication_that_times_out_still_leads_to_rest() {
    let (phase, action) = registration_step(
        fp(4),
        [9; 32],
        fp(3),
        RegistrationPhase::Publishing,
        RegistrationEvent::TimedOut,
    );
    assert_eq!(phase, RegistrationPhase::Resting);
    assert_eq!(action, RegistrationAction::Sleep { secs: REGISTER_REFRESH_SECS });
    assert_eq!(REGISTER_REFRESH_SECS, 50 * 60);
    assert_eq!(REGISTER_RETRY_SECS, 1);
    assert_eq!(REGISTER_TIMEOUT_SECS, 30);
}

#[test]
fn client_has_no_registration_loop() {
    let mut socket = bound(Endpoint::new(fp(1), 900), None);
    assert_eq!(socket.rendezvous_point(), None);
    assert_eq!(
        socket.on_registration_event(RegistrationEvent::Started),
        RegistrationAction::Ignore
    );
    assert_eq!(socket.registration_phase(), RegistrationPhase::Idle);
}

fn frame_of(body: &[u8], to: Endpoint) -> Vec<u8> {
    let server = bound(Endpoint::new(fp(4), 700), Some(fp(3)));
    match server.send_to(body.to_vec(), to) {
        HavenSendStep::Transmit { payload, .. } => payload,
        other => panic!("a server must not look up: {:?}", other),
    }
}

fn expected_frame(length: &[u8], body: &[u8], fingerprint: u8, dock: &[u8]) -> Vec<u8> {
    let mut frame = length.to_vec();
    frame.extend_from_slice(body);
    frame.extend_from_slice(&[fingerprint; 20]);
    frame.extend_from_slice(dock);
    frame
}

#[test]
fn frame_writes_lengths_and_docks_in_one_three_or_five_bytes() {
    let empty: Vec<u8> = vec![];
    assert_eq!(frame_of(&empty, Endpoint::new(fp(9), 0)), expected_frame(&[0], &empty, 9, &[0]));
    let body = vec![7u8; 250];
    assert_eq!(
        frame_of(&body, Endpoint::new(fp(9), 250)),
        expected_frame(&[250], &body, 9, &[250])
    );
    let body = vec![7u8; 251];
    assert_eq!(
        frame_of(&body, Endpoint::new(fp(9), 251)),
        expected_frame(&[251, 251, 0], &body, 9, &[251, 251, 0])
    );
    let body = vec![7u8; 65535];
    assert_eq!(
        frame_of(&body, Endpoint::new(fp(9), 65535)),
        expected_frame(&[251, 255, 255], &body, 9, &[251, 255, 255])
    );
    let body = vec![7u8; 65536];
    assert_eq!(
        frame_of(&body, Endpoint::new(fp(9), 0x1234)),
        expected_frame(&[252, 0, 0, 1, 0], &body, 9, &[251, 0x34, 0x12])
    );
    let body = vec![7u8; 0x01_02_03];
    assert_eq!(
        frame_of(&body, Endpoint::new(fp(9), 1)),
        expected_frame(&[252, 3, 2, 1, 0], &body, 9, &[1])
    );
}

#[test]
fn frames_of_every_width_are_read_back() {
    let client = bound(Endpoint::new(fp(1), 900), None);
    for length in [0usize, 1, 250, 251, 300, 65535, 65536, 70000] {
        for dock in [0u16, 250, 251, 65535] {
            let body = vec![length as u8; length];
            let to = Endpoint::new(fp(9), dock);
            assert_eq!(client.recv_from(Ok(frame_of(&body, to))), Ok((body, to)));
        }
    }
}

#[test]
fn sealed_body_is_forty_eight_bytes_longer() {
    let derek = Endpoint::new(fp(4), 5);
    let client = bound(Endpoint::new(fp(1), 900), None);
    let server = bound(derek, Some(fp(3)));
    for length in [0usize, 1, 100, 202, 203, 1000] {
        let body = vec![3u8; length];
        let (sent, _) = client
            .send_after_lookup(body.clone(), derek, DhtLookup::Found(locator_of(&server)))
            .unwrap();
        let prefix = if length + 48 <= 250 { 1 } else { 3 };
        assert_eq!(sent.len(), prefix + length + 48 + 20 + 1);
        assert_eq!(server.recv_from(Ok(sent)), Ok((body, derek)));
    }
}
