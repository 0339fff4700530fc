//! Hub-side scenario tests: the registration handshake, identity reuse, the
//! heartbeat fanout and its sequences, the last-seen update, the reaper, and
//! the queue bound.

use podpilot::hub::{AppState, RegistrationRefusal, EstablishedAction, registration_window_expired};
use podpilot::registry::SendOutcome;
use podpilot::protocol::{AgentMessage, HubMessage, AgentInfo, HeartbeatAckMessage, GpuInfo,
    ProviderType, AgentStatus, HeartbeatMessage};
use podpilot::codec::{encode_agent_message, encode_hub_message, decode_hub_frame};

const CID1: u128 = 0x11111111_1111_1111_1111_111111111111;
const CID9: u128 = 0x99999999_9999_9999_9999_999999999999;

fn register_frame(cid: u128) -> Vec<u8> {
    encode_agent_message(&AgentMessage::Register(AgentInfo {
        correlation_id: cid,
        provider: ProviderType::Local,
        provider_instance_id: b"host-abc12345".to_vec(),
        hostname: b"host".to_vec(),
        gpu_info: GpuInfo {
            name: b"NVIDIA X".to_vec(),
            memory_gb: b"24.0".to_vec(),
            cuda_version: b"12.4".to_vec(),
            compute_capability: Some(b"8.6".to_vec()),
        },
        tailscale_ip: b"100.64.0.2".to_vec(),
        agent_version: b"0.1.0".to_vec(),
    }))
}

const T0: u64 = 1_000_000;
const TS0: &[u8] = b"2026-01-05T10:00:00Z";

#[test]
fn happy_path_registration() {
    let mut hub = AppState::new();
    let ss = hub
        .handle_first_frame(&register_frame(CID1), b"0.1.0", T0, TS0)
        .ok()
        .expect("registration should succeed");
    assert_eq!(hub.connection_count(), 1);
    assert_eq!(hub.db.rows.len(), 1);
    assert_eq!(hub.db.rows[0].status, AgentStatus::Registering);
    assert_eq!(hub.db.rows[0].last_seen_at, Some(T0));
    match decode_hub_frame(&ss.ack_frame) {
        Ok(HubMessage::RegisterAck(ack)) => {
            assert_eq!(ack.correlation_id, CID1);
            assert_eq!(ack.agent_id, ss.agent_id);
            assert_eq!(ack.registered_at, TS0.to_vec());
            assert_eq!(ack.hub_version, b"0.1.0".to_vec());
        },
        other => panic!("expected a register_ack, got {:?}", other),
    }
}

#[test]
fn reused_identity_returns_same_agent_id() {
    let mut hub = AppState::new();
    let first = hub.handle_first_frame(&register_frame(CID1), b"0.1.0", T0, TS0).ok().unwrap();
    let second = hub
        .handle_first_frame(&register_frame(CID9), b"0.1.0", T0 + 5000, TS0)
        .ok()
        .unwrap();
    assert_eq!(first.agent_id, second.agent_id);
    assert_eq!(hub.db.rows.len(), 1);
}

#[test]
fn terminated_rows_are_never_reused() {
    let mut hub = AppState::new();
    let first = hub.handle_first_frame(&register_frame(CID1), b"0.1.0", T0, TS0).ok().unwrap();
    hub.db.rows[0].terminated_at = Some(T0 + 1);
    let second = hub
        .handle_first_frame(&register_frame(CID9), b"0.1.0", T0 + 5000, TS0)
        .ok()
        .unwrap();
    assert_ne!(first.agent_id, second.agent_id);
    assert_eq!(hub.db.rows.len(), 2);
}

#[test]
fn non_register_first_frame_closes_without_a_row() {
    let mut hub = AppState::new();
    let frame = encode_agent_message(&AgentMessage::HeartbeatAck(HeartbeatAckMessage {
        correlation_id: CID1,
        timestamp: TS0.to_vec(),
    }));
    match hub.handle_first_frame(&frame, b"0.1.0", T0, TS0) {
        Err(RegistrationRefusal::CloseSilent) => {},
        other => panic!("expected a silent close, got {:?}", other.is_ok()),
    }
    assert_eq!(hub.db.rows.len(), 0);
    assert_eq!(hub.connection_count(), 0);
}

#[test]
fn unknown_tag_first_frame_answers_unknown_message() {
    let mut hub = AppState::new();
    match hub.handle_first_frame(b"{\"type\":\"hello\",\"x\":1}", b"0.1.0", T0, TS0) {
        Err(RegistrationRefusal::CloseWithError(ef)) => match decode_hub_frame(&ef) {
            Ok(HubMessage::Error { code, correlation_id, .. }) => {
                assert_eq!(code, b"unknown_message".to_vec());
                assert_eq!(correlation_id, None);
            },
            other => panic!("expected an error envelope, got {:?}", other),
        },
        other => panic!("expected an error close, got {:?}", other.is_ok()),
    }
    assert_eq!(hub.db.rows.len(), 0);
}

#[test]
fn fanout_sequences_count_up_from_one() {
    let mut hub = AppState::new();
    let ss = hub.handle_first_frame(&register_frame(CID1), b"0.1.0", T0, TS0).ok().unwrap();
    let r1 = hub.fanout_tick(b"2026-01-05T10:00:10Z");
    assert_eq!(r1.len(), 1);
    assert_eq!(r1[0].agent_id, ss.agent_id);
    assert_eq!(r1[0].sequence, 1);
    assert_eq!(r1[0].outcome, SendOutcome::Delivered);
    let r2 = hub.fanout_tick(b"2026-01-05T10:00:20Z");
    assert_eq!(r2[0].sequence, 2);
    let m1 = hub.connections.pop_outbound(ss.agent_id, ss.session).unwrap();
    match m1 {
        HubMessage::Heartbeat(hb) => {
            assert_eq!(hb.sequence, 1);
            assert_eq!(hb.timestamp, b"2026-01-05T10:00:10Z".to_vec());
            assert_eq!(hb.correlation_id, r1[0].correlation_id);
        },
        other => panic!("expected a heartbeat, got {:?}", other),
    }
    let m2 = hub.connections.pop_outbound(ss.agent_id, ss.session).unwrap();
    match m2 {
        HubMessage::Heartbeat(hb) => assert_eq!(hb.sequence, 2),
        other => panic!("expected a heartbeat, got {:?}", other),
    }
}

#[test]
fn sequences_restart_with_each_session() {
    let mut hub = AppState::new();
    let ss = hub.handle_first_frame(&register_frame(CID1), b"0.1.0", T0, TS0).ok().unwrap();
    assert_eq!(hub.fanout_tick(TS0)[0].sequence, 1);
    assert_eq!(hub.fanout_tick(TS0)[0].sequence, 2);
    // destroying the registry entry resets the counter
    hub.remove_connection(ss.agent_id);
    assert_eq!(hub.fanout_tick(TS0).len(), 0);
    hub.register_connection(ss.agent_id, 77);
    assert_eq!(hub.fanout_tick(TS0)[0].sequence, 1);
    // a fast reconnect that replaces a live entry resets it too
    let _ = hub.fanout_tick(TS0);
    hub.register_connection(ss.agent_id, 78);
    assert_eq!(hub.fanout_tick(TS0)[0].sequence, 1);
    // a refused send erases the counter as well
    for _ in 0..31 {
        let m = HubMessage::Error { message: b"x".to_vec(), code: b"y".to_vec(), correlation_id: None };
        assert_eq!(hub.send_to_agent(ss.agent_id, m), SendOutcome::Delivered);
    }
    let full = hub.fanout_tick(TS0);
    assert_eq!(full[0].sequence, 2);
    assert_eq!(full[0].outcome, SendOutcome::QueueFull);
    hub.remove_connection(ss.agent_id);
    hub.register_connection(ss.agent_id, 79);
    assert_eq!(hub.fanout_tick(TS0)[0].sequence, 1);
}

#[test]
fn heartbeat_ack_updates_last_seen() {
    let mut hub = AppState::new();
    let ss = hub.handle_first_frame(&register_frame(CID1), b"0.1.0", T0, TS0).ok().unwrap();
    let t1 = T0 + 10_000;
    let ack = encode_agent_message(&AgentMessage::HeartbeatAck(HeartbeatAckMessage {
        correlation_id: CID9,
        timestamp: b"2026-01-05T10:00:10.100Z".to_vec(),
    }));
    match hub.handle_established_frame(ss.agent_id, &ack, t1 + 200) {
        EstablishedAction::SeenUpdated => {},
        _ => panic!("expected the last-seen update"),
    }
    assert_eq!(hub.db.rows[0].last_seen_at, Some(t1 + 200));
    assert!(hub.db.rows[0].last_seen_at.unwrap() >= t1);
}

#[test]
fn repeated_register_after_establishment_is_ignored() {
    let mut hub = AppState::new();
    let ss = hub.handle_first_frame(&register_frame(CID1), b"0.1.0", T0, TS0).ok().unwrap();
    match hub.handle_established_frame(ss.agent_id, &register_frame(CID9), T0 + 1000) {
        EstablishedAction::Ignored => {},
        _ => panic!("a repeated register must be ignored"),
    }
    assert_eq!(hub.db.rows[0].last_seen_at, Some(T0));
}

#[test]
fn reaper_marks_stale_agents_and_evicts_them() {
    let mut hub = AppState::new();
    let ss = hub.handle_first_frame(&register_frame(CID1), b"0.1.0", T0, TS0).ok().unwrap();
    assert!(hub.db.set_status(ss.agent_id, AgentStatus::Ready, T0));
    let before = hub.connection_count();
    // nothing to reap within the threshold
    assert_eq!(hub.reap_stale(T0 + 30_000), Vec::<u128>::new());
    // thirty-one seconds of silence crosses it
    let reaped = hub.reap_stale(T0 + 31_000);
    assert_eq!(reaped, vec![ss.agent_id]);
    assert_eq!(hub.db.rows[0].status, AgentStatus::Error);
    assert_eq!(hub.connection_count(), before - 1);
}

#[test]
fn reaper_leaves_registering_agents_alone() {
    let mut hub = AppState::new();
    let _ = hub.handle_first_frame(&register_frame(CID1), b"0.1.0", T0, TS0).ok().unwrap();
    assert_eq!(hub.reap_stale(T0 + 120_000), Vec::<u128>::new());
    assert_eq!(hub.db.rows[0].status, AgentStatus::Registering);
}

#[test]
fn queue_holds_thirty_two_messages_and_refuses_the_next() {
    let mut hub = AppState::new();
    hub.register_connection(5, 1);
    for _ in 0..32 {
        let m = HubMessage::Error { message: b"m".to_vec(), code: b"c".to_vec(), correlation_id: None };
        assert_eq!(hub.send_to_agent(5, m), SendOutcome::Delivered);
    }
    let m = HubMessage::Error { message: b"m".to_vec(), code: b"c".to_vec(), correlation_id: None };
    assert_eq!(hub.send_to_agent(5, m), SendOutcome::QueueFull);
    let m2 = HubMessage::Error { message: b"m".to_vec(), code: b"c".to_vec(), correlation_id: None };
    assert_eq!(hub.send_to_agent(6, m2), SendOutcome::NotConnected);
}

#[test]
fn replacing_a_session_displaces_the_old_queue() {
    let mut hub = AppState::new();
    hub.register_connection(5, 1);
    let m = HubMessage::Heartbeat(HeartbeatMessage {
        correlation_id: CID1,
        timestamp: TS0.to_vec(),
        sequence: 1,
    });
    assert_eq!(hub.send_to_agent(5, m), SendOutcome::Delivered);
    hub.register_connection(5, 2);
    assert_eq!(hub.connection_count(), 1);
    // the displaced session draws nothing, and the fresh queue is empty
    assert!(hub.connections.pop_outbound(5, 1).is_none());
    assert!(hub.connections.pop_outbound(5, 2).is_none());
}

#[test]
fn registration_window_boundary() {
    // a first frame at 29.9 s is still in time; at 30.1 s the window has passed
    assert!(!registration_window_expired(0, 29_900));
    assert!(!registration_window_expired(0, 30_000));
    assert!(registration_window_expired(0, 30_100));
}
