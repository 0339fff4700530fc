//! Wire codec tests: the literal frames of the protocol description, the
//! encode-then-decode round trip on every variant, and the rejection rules.

use podpilot::codec::{encode_agent_message, encode_hub_message, decode_agent_frame,
    decode_hub_frame, DecodeError};
use podpilot::protocol::{AgentMessage, HubMessage, AgentInfo, AgentRegistration, HeartbeatMessage,
    HeartbeatAckMessage, GpuInfo, ProviderType};

const CID1: u128 = 0x11111111_1111_1111_1111_111111111111;
const CID2: u128 = 0x22222222_2222_2222_2222_222222222222;
const AID: u128 = 0x33333333_3333_3333_3333_333333333333;

fn sample_register() -> AgentMessage {
    AgentMessage::Register(AgentInfo {
        correlation_id: CID1,
        provider: ProviderType::Local,
        provider_instance_id: b"host-abc12345".to_vec(),
        hostname: b"host".to_vec(),
        gpu_info: GpuInfo {
            name: b"NVIDIA X".to_vec(),
            memory_gb: b"24.0".to_vec(),
            cuda_version: b"12.4".to_vec(),
            compute_capability: Some(b"8.6".to_vec()),
        },
        tailscale_ip: b"100.64.0.2".to_vec(),
        agent_version: b"0.1.0".to_vec(),
    })
}

#[test]
fn register_frame_matches_wire_text() {
    let frame = encode_agent_message(&sample_register());
    let expected = "{\"type\":\"register\",\"correlation_id\":\"11111111-1111-1111-1111-111111111111\",\"provider\":\"local\",\"provider_instance_id\":\"host-abc12345\",\"hostname\":\"host\",\"gpu_info\":{\"name\":\"NVIDIA X\",\"memory_gb\":24.0,\"cuda_version\":\"12.4\",\"compute_capability\":\"8.6\"},\"tailscale_ip\":\"100.64.0.2\",\"agent_version\":\"0.1.0\"}";
    assert_eq!(String::from_utf8(frame).unwrap(), expected);
}

#[test]
fn register_roundtrip() {
    let m = sample_register();
    let frame = encode_agent_message(&m);
    assert_eq!(decode_agent_frame(&frame), Ok(m));
}

#[test]
fn register_roundtrip_without_capability() {
    let m = AgentMessage::Register(AgentInfo {
        correlation_id: CID2,
        provider: ProviderType::VastAI,
        provider_instance_id: b"i-1".to_vec(),
        hostname: b"h".to_vec(),
        gpu_info: GpuInfo {
            name: b"A100".to_vec(),
            memory_gb: b"80".to_vec(),
            cuda_version: b"12.1".to_vec(),
            compute_capability: None,
        },
        tailscale_ip: b"100.64.0.7".to_vec(),
        agent_version: b"0.2.0".to_vec(),
    });
    let frame = encode_agent_message(&m);
    assert_eq!(decode_agent_frame(&frame), Ok(m));
}

#[test]
fn heartbeat_ack_roundtrip() {
    let m = AgentMessage::HeartbeatAck(HeartbeatAckMessage {
        correlation_id: CID2,
        timestamp: b"2026-01-05T10:00:01.250Z".to_vec(),
    });
    let frame = encode_agent_message(&m);
    assert_eq!(
        String::from_utf8(frame.clone()).unwrap(),
        "{\"type\":\"heartbeat_ack\",\"correlation_id\":\"22222222-2222-2222-2222-222222222222\",\"timestamp\":\"2026-01-05T10:00:01.250Z\"}"
    );
    assert_eq!(decode_agent_frame(&frame), Ok(m));
}

#[test]
fn register_ack_roundtrip() {
    let m = HubMessage::RegisterAck(AgentRegistration {
        correlation_id: CID1,
        agent_id: AID,
        registered_at: b"2026-01-05T10:00:00Z".to_vec(),
        hub_version: b"0.1.0".to_vec(),
    });
    let frame = encode_hub_message(&m);
    assert_eq!(decode_hub_frame(&frame), Ok(m));
}

#[test]
fn heartbeat_roundtrip_and_sequence_text() {
    let m = HubMessage::Heartbeat(HeartbeatMessage {
        correlation_id: CID2,
        timestamp: b"2026-01-05T10:00:10Z".to_vec(),
        sequence: 1,
    });
    let frame = encode_hub_message(&m);
    assert_eq!(
        String::from_utf8(frame.clone()).unwrap(),
        "{\"type\":\"heartbeat\",\"correlation_id\":\"22222222-2222-2222-2222-222222222222\",\"timestamp\":\"2026-01-05T10:00:10Z\",\"sequence\":1}"
    );
    assert_eq!(decode_hub_frame(&frame), Ok(m));
}

#[test]
fn error_roundtrip_with_and_without_correlation() {
    let with = HubMessage::Error {
        message: b"registration could not be persisted".to_vec(),
        code: b"registration_failed".to_vec(),
        correlation_id: Some(CID1),
    };
    let frame = encode_hub_message(&with);
    assert_eq!(decode_hub_frame(&frame), Ok(with));
    let without = HubMessage::Error {
        message: b"boom".to_vec(),
        code: b"internal".to_vec(),
        correlation_id: None,
    };
    let frame2 = encode_hub_message(&without);
    assert_eq!(decode_hub_frame(&frame2), Ok(without));
}

#[test]
fn escaped_payload_roundtrip() {
    let m = AgentMessage::HeartbeatAck(HeartbeatAckMessage {
        correlation_id: CID1,
        timestamp: b"a\"b\\c\nd\te\x01f".to_vec(),
    });
    let frame = encode_agent_message(&m);
    assert_eq!(decode_agent_frame(&frame), Ok(m));
}

#[test]
fn unknown_variant_tag_is_its_own_error() {
    let frame = b"{\"type\":\"status_report\",\"x\":1}";
    assert_eq!(decode_agent_frame(frame), Err(DecodeError::UnknownType));
    assert_eq!(decode_hub_frame(frame), Err(DecodeError::UnknownType));
}

#[test]
fn malformed_frames_are_rejected() {
    assert_eq!(decode_agent_frame(b""), Err(DecodeError::Malformed));
    assert_eq!(decode_agent_frame(b"not json"), Err(DecodeError::Malformed));
    assert_eq!(decode_agent_frame(b"{\"type\":\"register\"}"), Err(DecodeError::Malformed));
    let mut truncated = encode_agent_message(&sample_register());
    truncated.pop();
    assert_eq!(decode_agent_frame(&truncated), Err(DecodeError::Malformed));
    let mut trailing = encode_agent_message(&sample_register());
    trailing.push(b' ');
    assert_eq!(decode_agent_frame(&trailing), Err(DecodeError::Malformed));
}

#[test]
fn agent_directions_do_not_cross() {
    let hb = encode_hub_message(&HubMessage::Heartbeat(HeartbeatMessage {
        correlation_id: CID2,
        timestamp: b"2026-01-05T10:00:10Z".to_vec(),
        sequence: 7,
    }));
    assert_eq!(decode_agent_frame(&hb), Err(DecodeError::UnknownType));
}
