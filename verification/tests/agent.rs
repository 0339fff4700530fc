//! Agent-side scenario tests: the reconnect backoff schedule, the
//! registration handshake, the heartbeat acknowledgments, and the deadline
//! boundaries.

use podpilot::agent::{WsClient, AgentPhase, AwaitOutcome, ConnectedAction, deadline_check,
    HEARTBEAT_TIMEOUT_MS};
use podpilot::protocol::{HubMessage, AgentMessage, AgentRegistration, HeartbeatMessage,
    HeartbeatAckMessage, GpuInfo, ProviderType};
use podpilot::codec::{encode_hub_message, decode_agent_frame};

const CID2: u128 = 0x22222222_2222_2222_2222_222222222222;
const AID: u128 = 0x33333333_3333_3333_3333_333333333333;

fn sample_client() -> WsClient {
    WsClient::new(
        "ws://localhost:80/ws/agent".to_owned(),
        ProviderType::Local,
        b"host-abc12345".to_vec(),
        b"host".to_vec(),
        GpuInfo {
            name: b"NVIDIA X".to_vec(),
            memory_gb: b"24.0".to_vec(),
            cuda_version: b"12.4".to_vec(),
            compute_capability: Some(b"8.6".to_vec()),
        },
        b"100.64.0.2".to_vec(),
        b"0.1.0".to_vec(),
    )
}

#[test]
fn backoff_schedule_doubles_to_the_ceiling() {
    let mut c = sample_client();
    let mut delays = Vec::new();
    let mut attempt_times = vec![0u64];
    let mut t = 0u64;
    for _ in 0..8 {
        let d = c.attempt_failed();
        delays.push(d);
        t += d;
        attempt_times.push(t);
    }
    assert_eq!(delays, vec![1000, 2000, 4000, 8000, 16000, 32000, 60000, 60000]);
    assert_eq!(attempt_times, vec![0, 1000, 3000, 7000, 15000, 31000, 63000, 123000, 183000]);
}

#[test]
fn clean_close_resets_the_backoff() {
    let mut c = sample_client();
    for _ in 0..4 {
        let _ = c.attempt_failed();
    }
    assert_eq!(c.backoff_ms, 16000);
    c.session_closed();
    assert_eq!(c.backoff_ms, 1000);
    assert_eq!(c.attempt_failed(), 1000);
}

#[test]
fn registration_handshake_establishes_the_session() {
    let mut c = sample_client();
    let frame = c.on_connected(500);
    assert_eq!(c.phase, AgentPhase::AwaitRegAck);
    match decode_agent_frame(&frame) {
        Ok(AgentMessage::Register(info)) => {
            assert_eq!(info.provider, ProviderType::Local);
            assert_eq!(info.hostname, b"host".to_vec());
            assert_eq!(info.tailscale_ip, b"100.64.0.2".to_vec());
        },
        other => panic!("the first outbound frame must be a register, got {:?}", other),
    }
    let ack = encode_hub_message(&HubMessage::RegisterAck(AgentRegistration {
        correlation_id: CID2,
        agent_id: AID,
        registered_at: b"2026-01-05T10:00:00Z".to_vec(),
        hub_version: b"0.1.0".to_vec(),
    }));
    assert_eq!(c.on_await_frame(&ack, 900), AwaitOutcome::Established);
    assert_eq!(c.phase, AgentPhase::Connected);
    assert_eq!(c.agent_id, Some(AID));
    assert_eq!(c.last_heartbeat_ms, 900);
}

#[test]
fn rejection_and_stray_frames_fail_the_attempt() {
    let mut c = sample_client();
    let _ = c.on_connected(0);
    let rejected = encode_hub_message(&HubMessage::Error {
        message: b"no".to_vec(),
        code: b"registration_failed".to_vec(),
        correlation_id: Some(CID2),
    });
    assert_eq!(
        c.on_await_frame(&rejected, 10),
        AwaitOutcome::Rejected(b"registration_failed".to_vec()),
    );
    let hb = encode_hub_message(&HubMessage::Heartbeat(HeartbeatMessage {
        correlation_id: CID2,
        timestamp: b"2026-01-05T10:00:10Z".to_vec(),
        sequence: 1,
    }));
    assert_eq!(c.on_await_frame(&hb, 20), AwaitOutcome::AttemptFailed);
    assert_eq!(c.on_await_frame(b"garbage", 30), AwaitOutcome::AttemptFailed);
}

#[test]
fn each_heartbeat_gets_exactly_one_matching_ack() {
    let mut c = sample_client();
    let _ = c.on_connected(0);
    let ack = encode_hub_message(&HubMessage::RegisterAck(AgentRegistration {
        correlation_id: CID2,
        agent_id: AID,
        registered_at: b"2026-01-05T10:00:00Z".to_vec(),
        hub_version: b"0.1.0".to_vec(),
    }));
    let _ = c.on_await_frame(&ack, 100);
    let hb = encode_hub_message(&HubMessage::Heartbeat(HeartbeatMessage {
        correlation_id: CID2,
        timestamp: b"2026-01-05T10:00:10Z".to_vec(),
        sequence: 1,
    }));
    match c.on_connected_frame(&hb, 10_050, b"2026-01-05T10:00:10.050Z") {
        ConnectedAction::Ack(af) => match decode_agent_frame(&af) {
            Ok(AgentMessage::HeartbeatAck(a)) => {
                assert_eq!(a.correlation_id, CID2);
                assert_eq!(a.timestamp, b"2026-01-05T10:00:10.050Z".to_vec());
            },
            other => panic!("the answer must be a heartbeat_ack, got {:?}", other),
        },
        _ => panic!("a heartbeat must be acknowledged"),
    }
    assert_eq!(c.last_heartbeat_ms, 10_050);
    // everything else draws no acknowledgment
    let stray = encode_hub_message(&HubMessage::Error {
        message: b"x".to_vec(),
        code: b"y".to_vec(),
        correlation_id: None,
    });
    match c.on_connected_frame(&stray, 10_060, b"2026-01-05T10:00:10.060Z") {
        ConnectedAction::Ignore => {},
        _ => panic!("a stray error envelope is noted, not answered and not fatal"),
    }
    assert_eq!(c.last_heartbeat_ms, 10_050);
    // a protocol violation closes the session
    match c.on_connected_frame(b"{\"type\":\"status_report\"}", 10_070, b"2026-01-05T10:00:10.070Z") {
        ConnectedAction::Close => {},
        _ => panic!("an unknown variant tag must close the session"),
    }
    match c.on_connected_frame(b"garbage", 10_080, b"2026-01-05T10:00:10.080Z") {
        ConnectedAction::Close => {},
        _ => panic!("unparsable text must close the session"),
    }
    assert_eq!(c.last_heartbeat_ms, 10_050);
}

#[test]
fn heartbeat_deadline_fires_just_past_thirty_seconds() {
    let mut c = sample_client();
    let _ = c.on_connected(0);
    let ack = encode_hub_message(&HubMessage::RegisterAck(AgentRegistration {
        correlation_id: CID2,
        agent_id: AID,
        registered_at: b"2026-01-05T10:00:00Z".to_vec(),
        hub_version: b"0.1.0".to_vec(),
    }));
    let _ = c.on_await_frame(&ack, 1000);
    assert!(!c.heartbeat_expired(1000 + HEARTBEAT_TIMEOUT_MS));
    assert!(c.heartbeat_expired(1000 + HEARTBEAT_TIMEOUT_MS + 1));
    // the five-second monitor cadence notices it within thirty-five seconds
    assert!(c.heartbeat_expired(1000 + 35_000));
}

#[test]
fn registration_timeout_boundary() {
    let mut c = sample_client();
    let _ = c.on_connected(100);
    assert!(!c.registration_timed_out(100 + 29_900));
    assert!(c.registration_timed_out(100 + 30_100));
}

#[test]
fn deadline_check_is_exact() {
    assert!(!deadline_check(0, 30_000, 30_000));
    assert!(deadline_check(0, 30_001, 30_000));
    assert!(!deadline_check(500, 400, 30_000));
}

#[test]
fn shutdown_is_idempotent() {
    let mut c = sample_client();
    c.shutdown();
    assert!(c.shutdown_requested);
    c.shutdown();
    assert!(c.shutdown_requested);
}
