use dspatch_router::config::RouterConfig;
use dspatch_router::wire::WirePackage;
use dspatch_router::wal::{Wal, WalDirection};
use dspatch_router::ws_client::{
    check_auth_reply, classify_engine_text, is_auth_ack, react_to_engine_text, replay_texts, EngineMessage,
    EngineReaction, ExponentialBackoff, WsClient, session_opening,
};
use std::sync::Arc;

#[test]
fn exponential_backoff_progression() {
    let mut backoff = ExponentialBackoff::new(1_000, 30_000);
    let d1 = backoff.next_delay();
    assert_eq!(d1, 1_000);

    let d2 = backoff.next_delay();
    assert_eq!(d2, 2_000);

    let d3 = backoff.next_delay();
    assert_eq!(d3, 4_000);

    for _ in 0..10 {
        backoff.next_delay();
    }
    let d_capped = backoff.next_delay();
    assert!(d_capped <= 30_000);
}

#[test]
fn backoff_reset() {
    let mut backoff = ExponentialBackoff::new(2_000, 60_000);
    backoff.next_delay();
    backoff.next_delay();
    backoff.reset();
    assert_eq!(backoff.next_delay(), 2_000);
}

#[test]
fn backoff_caps_exactly_at_the_maximum() {
    let mut backoff = ExponentialBackoff::new(1_000, 30_000);
    let delays: Vec<u64> = (0..8).map(|_| backoff.next_delay()).collect();
    assert_eq!(delays, vec![1_000, 2_000, 4_000, 8_000, 16_000, 30_000, 30_000, 30_000]);
}

#[test]
fn backoff_survives_many_attempts() {
    let mut backoff = ExponentialBackoff::new(u64::MAX, u64::MAX);
    for _ in 0..100 {
        assert_eq!(backoff.next_delay(), u64::MAX);
    }
    let mut small = ExponentialBackoff::new(3, 1_000_000);
    let mut last = 0;
    for _ in 0..80 {
        let d = small.next_delay();
        assert!(d >= last && d <= 1_000_000);
        last = d;
    }
    assert_eq!(last, 1_000_000);
}

#[test]
fn engine_ack_is_recognised() {
    match classify_engine_text(r#"{"type":"connection.ack","sequence_number":17}"#.to_string()) {
        EngineMessage::Ack(n) => assert_eq!(n, Some(17)),
        _ => panic!("expected an ack"),
    }
    match classify_engine_text(r#"{"type":"connection.ack"}"#.to_string()) {
        EngineMessage::Ack(n) => assert_eq!(n, None),
        _ => panic!("expected an ack"),
    }
}

#[test]
fn engine_packages_and_garbage() {
    match classify_engine_text(r#"{"type":"agent.event.user_input","instance_id":"lead-0"}"#.to_string()) {
        EngineMessage::Package(p) => assert_eq!(p.instance_id(), Some("lead-0".to_string())),
        _ => panic!("expected a package"),
    }
    match classify_engine_text("hello".to_string()) {
        EngineMessage::Invalid(e) => {
            assert_eq!(e, serde_json::from_str::<serde_json::Value>("hello").unwrap_err().to_string());
            assert_eq!(e, "expected value at line 1 column 1");
        },
        _ => panic!("expected an invalid frame"),
    }
    match classify_engine_text("[1]".to_string()) {
        EngineMessage::Invalid(e) => assert_eq!(e, "Missing 'type' field"),
        _ => panic!("expected an invalid frame"),
    }
}

#[test]
fn auth_ack_completes_the_handshake() {
    let ack = WirePackage::from_json(r#"{"type":"connection.auth_ack"}"#.to_string()).unwrap();
    assert!(is_auth_ack(&ack));
    let other = WirePackage::from_json(r#"{"type":"connection.auth_error"}"#.to_string()).unwrap();
    assert!(!is_auth_ack(&other));
}

#[test]
fn client_keeps_its_configuration() {
    let config = RouterConfig::from_values(
        vec![],
        Some("http://engine:9847/".into()),
        Some("k".into()),
        Some("run-1".into()),
        Some("ws-1".into()),
        None,
        None,
    )
    .unwrap();
    let client = WsClient::new(Arc::new(config));
    assert_eq!(client.router_config().run_id, "run-1");
    assert_eq!(client.router_config().ws_url(), "ws://engine:9847/ws/run-1");
}

#[test]
fn engine_frames_drive_the_log() {
    let mut wal = Wal::new();
    for data in [r#"{"n":1}"#, r#"{"n":2}"#, r#"{"n":3}"#] {
        let p = wal.begin_append(WalDirection::Outbound, 0, data).unwrap();
        wal.commit_append(p).unwrap();
    }
    let p = wal.begin_append(WalDirection::Inbound, 0, r#"{"in":1}"#).unwrap();
    wal.commit_append(p).unwrap();

    let replay: Vec<serde_json::Value> =
        replay_texts(&wal).iter().map(|t| serde_json::from_str(t).unwrap()).collect();
    assert_eq!(replay.len(), 3);
    assert_eq!(replay[2]["n"], 3);

    assert!(matches!(
        react_to_engine_text(&mut wal, r#"{"type":"connection.ack","sequence_number":2}"#.to_string()),
        EngineReaction::Acknowledged
    ));
    assert_eq!(replay_texts(&wal).len(), 1);
    assert_eq!(wal.unacked_entries(WalDirection::Inbound).len(), 1);

    assert!(matches!(
        react_to_engine_text(&mut wal, r#"{"type":"connection.ack"}"#.to_string()),
        EngineReaction::Acknowledged
    ));
    assert_eq!(replay_texts(&wal).len(), 1);

    match react_to_engine_text(&mut wal, r#"{"type":"agent.event.user_input","instance_id":"lead-0"}"#.to_string()) {
        EngineReaction::Deliver(p) => assert_eq!(p.package_type(), "agent.event.user_input"),
        _ => panic!("expected a package"),
    }
    match react_to_engine_text(&mut wal, "{}".to_string()) {
        EngineReaction::Stop(e) => assert_eq!(e, "Missing 'type' field"),
        _ => panic!("expected the connection to stop"),
    }
    assert_eq!(replay_texts(&wal).len(), 1);
}

#[test]
fn auth_reply_is_checked() {
    assert!(check_auth_reply(r#"{"type":"connection.auth_ack"}"#.to_string()).is_ok());
    assert_eq!(
        check_auth_reply(r#"{"type":"connection.auth_error"}"#.to_string()).unwrap_err(),
        "Expected auth_ack, got connection.auth_error"
    );
    assert_eq!(
        check_auth_reply("nope".to_string()).unwrap_err(),
        serde_json::from_str::<serde_json::Value>("nope").unwrap_err().to_string()
    );
    assert_eq!(check_auth_reply(r#"{"sequence_number":1}"#.to_string()).unwrap_err(), "Missing 'type' field");
}

#[test]
fn session_opens_with_register_then_replay() {
    let mut wal = Wal::new();
    let p = wal.begin_append(WalDirection::Outbound, 0, r#"{"n":1}"#).unwrap();
    wal.commit_append(p).unwrap();
    let p = wal.begin_append(WalDirection::Inbound, 0, r#"{"in":1}"#).unwrap();
    wal.commit_append(p).unwrap();
    let frames = session_opening(r#"{"type":"connection.auth_ack"}"#.to_string(), &wal).unwrap();
    assert_eq!(frames.len(), 2);
    let reg: serde_json::Value = serde_json::from_str(&frames[0]).unwrap();
    assert_eq!(reg["type"], "connection.register");
    assert_eq!(reg["role"], "container_router");
    assert_eq!(frames[1], r#"{"n":1}"#);
    assert_eq!(
        session_opening(r#"{"type":"connection.auth_error"}"#.to_string(), &wal).unwrap_err(),
        "Expected auth_ack, got connection.auth_error"
    );
}
