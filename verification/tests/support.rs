//! Tests of the supporting pieces: identifier rendering, timestamp shapes,
//! the clock wrappers, the command-line input validators, the daemon status
//! reader, and the control-channel error texts.

use podpilot::ids::{encode_uuid, parse_uuid};
use podpilot::text::check_timestamp;
use podpilot::clock::{now_millis, now_timestamp, epoch_timestamp};
use podpilot::tailnet::{validate_authkey, validate_hostname, validate_tags, TailscaleStatus,
    TailscaleStatusError, extract_tailscale_ip, connection_ready};
use podpilot::rpc::{RpcError, ApiClientError};

#[test]
fn identifier_rendering_roundtrip() {
    let u: u128 = 0x11111111_1111_1111_1111_111111111111;
    let mut out = Vec::new();
    encode_uuid(u, &mut out);
    assert_eq!(
        String::from_utf8(out.clone()).unwrap(),
        "11111111-1111-1111-1111-111111111111",
    );
    assert_eq!(parse_uuid(&out, 0), Some((u, 36)));
    let v: u128 = 0x0123_4567_89ab_cdef_0011_2233_4455_6677;
    let mut out2 = Vec::new();
    encode_uuid(v, &mut out2);
    assert_eq!(parse_uuid(&out2, 0), Some((v, 36)));
    assert!(parse_uuid(b"11111111-1111-1111-1111-11111111111", 0).is_none());
    assert!(parse_uuid(b"11111111x1111-1111-1111-111111111111", 0).is_none());
}

#[test]
fn timestamp_shapes() {
    assert!(check_timestamp(b"2026-01-05T10:00:00Z"));
    assert!(check_timestamp(b"2026-01-05T10:00:00.123Z"));
    assert!(check_timestamp(b"1970-01-01T00:00:00.123456Z"));
    assert!(!check_timestamp(b"2026-01-05 10:00:00Z"));
    assert!(!check_timestamp(b"2026-01-05T10:00:00"));
    assert!(!check_timestamp(b"2026-01-05T10:00:00.Z"));
    assert!(!check_timestamp(b""));
}

#[test]
fn clock_readings_have_the_promised_shapes() {
    // a clock reading after the year two thousand twenty, in milliseconds
    assert!(now_millis() > 1_577_836_800_000);
    // the trusted reading is validated before it is handed out
    assert!(check_timestamp(&now_timestamp()));
    assert_eq!(epoch_timestamp(), b"1970-01-01T00:00:00Z".to_vec());
}

#[test]
fn command_line_validators() {
    assert!(validate_authkey("tskey-abc123:DEF-456").is_ok());
    assert!(validate_authkey("bad key").is_err());
    assert!(validate_authkey("semi;colon").is_err());
    assert!(validate_hostname("node-01").is_ok());
    assert!(validate_hostname("node_01").is_err());
    assert!(validate_hostname("a b").is_err());
    assert!(validate_tags("tag:prod-fleet").is_ok());
    assert!(validate_tags("tag prod").is_err());
    assert_eq!(
        validate_hostname("a b").unwrap_err(),
        "Invalid hostname format: contains disallowed characters",
    );
}

#[test]
fn daemon_status_reading() {
    let unauth = TailscaleStatus { backend_state: "NeedsLogin".to_owned(), self_ips: None };
    assert_eq!(extract_tailscale_ip(&unauth), Err(TailscaleStatusError::NotAuthenticated));
    assert!(!connection_ready(&unauth));
    let empty = TailscaleStatus { backend_state: "Running".to_owned(), self_ips: Some(vec![]) };
    assert_eq!(extract_tailscale_ip(&empty), Err(TailscaleStatusError::NoAddresses));
    assert!(!connection_ready(&empty));
    let up = TailscaleStatus {
        backend_state: "Running".to_owned(),
        self_ips: Some(vec!["100.64.0.9".to_owned(), "fd7a::9".to_owned()]),
    };
    assert_eq!(extract_tailscale_ip(&up), Ok("100.64.0.9".to_owned()));
    assert!(connection_ready(&up));
    let starting = TailscaleStatus {
        backend_state: "Starting".to_owned(),
        self_ips: Some(vec!["100.64.0.9".to_owned()]),
    };
    assert!(!connection_ready(&starting));
}

#[test]
fn rpc_error_texts() {
    assert_eq!(RpcError::NotRegistered.message(), "Agent is not registered");
    assert_eq!(RpcError::Timeout.message(), "Operation timed out");
    assert_eq!(
        RpcError::Database("pool closed".to_owned()).message(),
        "Database error: pool closed",
    );
    assert_eq!(
        RpcError::IdentityConflict("host-1".to_owned()).message(),
        "Agent identity conflict: host-1",
    );
    assert_eq!(
        ApiClientError::RequestFailed("connection refused".to_owned()).message(),
        "Request failed: connection refused",
    );
}
