use earendil::addr::Fingerprint;
use earendil::daemon::global_rpc::transport::{
    decode_response, Backoff, GlobalRpcTransport, RpcEvent, RpcStep, RpcTransportError,
    LAST_DOUBLING,
};
use earendil::daemon::global_rpc::GLOBAL_RPC_DOCK;
use earendil::socket::n2r_socket::{DockTable, EPHEMERAL_DOCK_MIN};
use earendil::socket::{Endpoint, SocketSendError};
use nanorpc::{JrpcId, JrpcRequest};

fn me() -> Fingerprint {
    Fingerprint::from_bytes([1; 20])
}

fn request() -> JrpcRequest {
    JrpcRequest {
        jsonrpc: "2.0".to_string(),
        method: "ping".to_string(),
        params: vec![serde_json::Value::from(7)],
        id: JrpcId::Number(1),
    }
}

#[test]
fn timeouts_double_from_two_seconds() {
    let mut backoff = Backoff::new();
    let mut expected: u64 = 2;
    let mut waited: u64 = 0;
    for n in 0..10u32 {
        assert_eq!(backoff.retry_count(), n);
        assert_eq!(backoff.timeout_secs(), expected);
        assert_eq!(backoff.waited_secs(), waited);
        waited += expected;
        expected *= 2;
        backoff = backoff.after_timeout();
    }
    assert_eq!(backoff.timeout_secs(), 2048);
    assert_eq!(backoff.waited_secs(), 2046);
}

#[test]
fn wait_before_the_third_retry_is_fourteen_seconds() {
    let backoff = Backoff::new().after_timeout().after_timeout().after_timeout();
    assert_eq!(backoff.retry_count(), 3);
    assert_eq!(backoff.waited_secs(), 2 + 4 + 8);
    assert_eq!(backoff.timeout_secs(), 16);
}

#[test]
fn schedule_has_no_last_attempt() {
    let mut backoff = Backoff::new();
    let mut last = 0u64;
    while backoff.retry_count() < LAST_DOUBLING {
        assert!(backoff.timeout_secs() > last);
        last = backoff.timeout_secs();
        backoff = backoff.after_timeout();
    }
    assert_eq!(backoff.retry_count(), 62);
    assert_eq!(backoff.timeout_secs(), 1u64 << 63);
    assert_eq!(backoff.waited_secs(), (1u64 << 63) - 2);
    // the double of this timeout does not fit: the timeout stays
    backoff = backoff.after_timeout();
    assert_eq!(backoff.retry_count(), 63);
    assert_eq!(backoff.timeout_secs(), 1u64 << 63);
    assert_eq!(backoff.waited_secs(), u64::MAX - 1);
    backoff = backoff.after_timeout();
    assert_eq!(backoff.retry_count(), 64);
    assert_eq!(backoff.timeout_secs(), 1u64 << 63);
    assert_eq!(backoff.waited_secs(), u64::MAX);
    for _ in 0..1000 {
        backoff = backoff.after_timeout();
    }
    assert_eq!(backoff.retry_count(), 1064);
    assert_eq!(backoff.timeout_secs(), 1u64 << 63);
    assert_eq!(backoff.waited_secs(), u64::MAX);
}

#[test]
fn call_goes_on_after_any_number_of_timeouts() {
    let transport = GlobalRpcTransport::new(Fingerprint::from_bytes([5; 20]));
    let mut call = transport.call_raw(&mut DockTable::new(), me(), &request()).unwrap();
    let mut last = 2u64;
    for _ in 0..200 {
        match call.on_event(RpcEvent::TimedOut) {
            RpcStep::Transmit { timeout_secs, .. } => {
                assert!(timeout_secs >= last);
                assert!(timeout_secs > 0);
                last = timeout_secs;
            }
            other => panic!("expected a retransmission, got {:?}", other),
        }
    }
    assert_eq!(last, 1u64 << 63);
    assert_eq!(call.backoff().retry_count(), 200);
    // a reply that comes late ends the call as any other
    let body = b"{\"jsonrpc\":\"2.0\",\"result\":5,\"id\":1}".to_vec();
    match call.on_event(RpcEvent::Response(body)) {
        RpcStep::Done(Ok(response)) => {
            assert_eq!(response.result, Some(serde_json::Value::from(5)));
            assert_eq!(response.id, JrpcId::Number(1));
        }
        other => panic!("expected a response, got {:?}", other),
    }
}

#[test]
fn reply_to_an_earlier_attempt_is_taken() {
    let transport = GlobalRpcTransport::new(Fingerprint::from_bytes([5; 20]));
    let mut call = transport.call_raw(&mut DockTable::new(), me(), &request()).unwrap();
    assert!(matches!(call.transmit(), RpcStep::Transmit { timeout_secs: 2, .. }));
    assert!(matches!(
        call.on_event(RpcEvent::TimedOut),
        RpcStep::Transmit { timeout_secs: 4, .. }
    ));
    let body = b"{\"jsonrpc\":\"2.0\",\"result\":[1,\"x\"],\"id\":\"first\"}".to_vec();
    match call.on_event(RpcEvent::Response(body)) {
        RpcStep::Done(Ok(response)) => {
            assert_eq!(response.jsonrpc, "2.0");
            assert_eq!(response.id, JrpcId::String("first".to_string()));
            assert_eq!(
                response.result,
                Some(serde_json::Value::from(vec![
                    serde_json::Value::from(1),
                    serde_json::Value::from("x")
                ]))
            );
        }
        other => panic!("expected a response, got {:?}", other),
    }
    assert_eq!(call.backoff().retry_count(), 1);
    assert_eq!(call.backoff().waited_secs(), 2);
}

#[test]
fn call_sends_the_request_as_json_to_the_rpc_dock() {
    let dest = Fingerprint::from_bytes([5; 20]);
    let transport = GlobalRpcTransport::new(dest);
    assert_eq!(transport.endpoint(), Endpoint::new(dest, GLOBAL_RPC_DOCK));
    let call = transport.call_raw(&mut DockTable::new(), me(), &request()).unwrap();
    match call.transmit() {
        RpcStep::Transmit { to, payload, timeout_secs } => {
            assert_eq!(to, Endpoint::new(dest, GLOBAL_RPC_DOCK));
            assert_eq!(timeout_secs, 2);
            assert_eq!(
                String::from_utf8(payload).unwrap(),
                "{\"jsonrpc\":\"2.0\",\"method\":\"ping\",\"params\":[7],\"id\":1}"
            );
        }
        other => panic!("expected a transmission, got {:?}", other),
    }
}

#[test]
fn timeout_retransmits_the_same_bytes_with_twice_the_timeout() {
    let transport = GlobalRpcTransport::new(Fingerprint::from_bytes([5; 20]));
    let mut call = transport.call_raw(&mut DockTable::new(), me(), &request()).unwrap();
    let first = match call.transmit() {
        RpcStep::Transmit { payload, .. } => payload,
        other => panic!("expected a transmission, got {:?}", other),
    };
    let mut expected = 4u64;
    for _ in 0..5 {
        match call.on_event(RpcEvent::TimedOut) {
            RpcStep::Transmit { to, payload, timeout_secs } => {
                assert_eq!(to, transport.endpoint());
                assert_eq!(payload, first);
                assert_eq!(timeout_secs, expected);
            }
            other => panic!("expected a retransmission, got {:?}", other),
        }
        expected *= 2;
    }
    assert_eq!(call.backoff().retry_count(), 5);
    assert_eq!(call.backoff().waited_secs(), 2 + 4 + 8 + 16 + 32);
}

#[test]
fn response_ends_the_call() {
    let transport = GlobalRpcTransport::new(Fingerprint::from_bytes([5; 20]));
    let mut call = transport.call_raw(&mut DockTable::new(), me(), &request()).unwrap();
    let body = b"{\"jsonrpc\":\"2.0\",\"result\":\"pong\",\"id\":1}".to_vec();
    match call.on_event(RpcEvent::Response(body)) {
        RpcStep::Done(Ok(response)) => {
            assert_eq!(response.jsonrpc, "2.0");
            assert_eq!(response.id, JrpcId::Number(1));
            assert_eq!(response.result, Some(serde_json::Value::from("pong")));
            assert!(response.error.is_none());
        }
        other => panic!("expected a response, got {:?}", other),
    }
    assert_eq!(call.backoff().retry_count(), 0);
}

#[test]
fn failures_end_the_call_with_their_error() {
    let transport = GlobalRpcTransport::new(Fingerprint::from_bytes([5; 20]));
    let mut call = transport.call_raw(&mut DockTable::new(), me(), &request()).unwrap();
    assert!(matches!(
        call.on_event(RpcEvent::RecvFailed),
        RpcStep::Done(Err(RpcTransportError::RecvFailed))
    ));
    assert!(matches!(
        call.on_event(RpcEvent::SendFailed(SocketSendError::NoRoute)),
        RpcStep::Done(Err(RpcTransportError::SendFailed(SocketSendError::NoRoute)))
    ));
    assert!(matches!(
        call.on_event(RpcEvent::Response(vec![0xff, 0xfe])),
        RpcStep::Done(Err(RpcTransportError::NotUtf8))
    ));
    assert!(matches!(
        call.on_event(RpcEvent::Response(b"not json".to_vec())),
        RpcStep::Done(Err(RpcTransportError::BadResponse))
    ));
}

#[test]
fn decode_response_tells_bad_bytes_from_bad_json() {
    assert_eq!(decode_response(vec![0xc3]).err(), Some(RpcTransportError::NotUtf8));
    assert_eq!(
        decode_response(b"{\"jsonrpc\":\"2.0\"}".to_vec()).err(),
        Some(RpcTransportError::BadResponse)
    );
    let ok = decode_response(b"{\"jsonrpc\":\"2.0\",\"id\":\"a\"}".to_vec()).unwrap();
    assert_eq!(ok.id, JrpcId::String("a".to_string()));
    assert!(ok.result.is_none());
}

#[test]
fn request_that_does_not_encode_fails_the_call() {
    let transport = GlobalRpcTransport::new(Fingerprint::from_bytes([5; 20]));
    let failure = serde_json::from_str::<u8>("x").unwrap_err();
    assert_eq!(transport.call_encoded(&mut DockTable::new(), me(), Err(failure)).err(), Some(RpcTransportError::BadRequest));
    let call = transport.call_encoded(&mut DockTable::new(), me(), Ok("{}".to_string())).unwrap();
    assert!(matches!(
        call.transmit(),
        RpcStep::Transmit { payload, timeout_secs: 2, .. } if payload == b"{}".to_vec()
    ));
}

#[test]
fn every_call_of_one_request_sends_the_same_text() {
    let transport = GlobalRpcTransport::new(Fingerprint::from_bytes([5; 20]));
    let payload = |call: &earendil::daemon::global_rpc::transport::RpcCall| match call.transmit() {
        RpcStep::Transmit { payload, .. } => payload,
        other => panic!("expected a transmission, got {:?}", other),
    };
    let first = transport.call_raw(&mut DockTable::new(), me(), &request()).unwrap();
    let second = transport.call_raw(&mut DockTable::new(), me(), &request()).unwrap();
    assert_eq!(payload(&first), payload(&second));
    assert!(!payload(&first).is_empty());
}

#[test]
fn call_binds_a_fresh_socket_and_gives_it_back() {
    let transport = GlobalRpcTransport::new(Fingerprint::from_bytes([5; 20]));
    let mut table = DockTable::new();
    let first = transport.call_raw(&mut table, me(), &request()).unwrap();
    let second = transport.call_raw(&mut table, me(), &request()).unwrap();
    assert_eq!(first.skt_info(), Endpoint::new(me(), EPHEMERAL_DOCK_MIN));
    assert_eq!(second.skt_info(), Endpoint::new(me(), EPHEMERAL_DOCK_MIN + 1));
    assert!(table.contains(&first.skt_info()));
    first.close(&mut table);
    assert!(!table.contains(&Endpoint::new(me(), EPHEMERAL_DOCK_MIN)));
    assert!(table.contains(&second.skt_info()));
    let third = transport.call_raw(&mut table, me(), &request()).unwrap();
    assert_eq!(third.skt_info(), Endpoint::new(me(), EPHEMERAL_DOCK_MIN));

    // a request that does not encode binds nothing
    let failure = serde_json::from_str::<u8>("x").unwrap_err();
    let mut empty = DockTable::new();
    assert!(transport.call_encoded(&mut empty, me(), Err(failure)).is_err());
    assert_eq!(empty.free_ephemeral_dock(me()), Some(EPHEMERAL_DOCK_MIN));
}

#[test]
fn call_without_a_free_dock_has_no_socket() {
    let transport = GlobalRpcTransport::new(Fingerprint::from_bytes([5; 20]));
    let mut table = DockTable::new();
    for dock in EPHEMERAL_DOCK_MIN..=u16::MAX {
        table.bind(me(), Some(dock)).unwrap();
    }
    assert_eq!(
        transport.call_raw(&mut table, me(), &request()).err(),
        Some(RpcTransportError::NoSocket)
    );
    assert!(transport.call_raw(&mut table, Fingerprint::from_bytes([2; 20]), &request()).is_ok());
}
