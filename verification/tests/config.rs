//! Configuration tests: the defaults, the flexible duration syntax, the
//! overlay-address shapes, the identity fallbacks, and the credential rule.

use podpilot::config::{default_hub_url, default_status_port, default_provider,
    default_tailscale_ip, default_log_level, default_port, default_shutdown_timeout,
    default_tracing_format, TracingFormat, parse_duration_ms, DurationParseError, check_ip_text,
    Config, TailscaleConfig};
use podpilot::protocol::ProviderType;

#[test]
fn defaults_match_the_description() {
    assert_eq!(default_hub_url(), "ws://localhost:80/ws/agent");
    assert_eq!(default_status_port(), 8081);
    assert_eq!(default_provider(), ProviderType::Local);
    assert_eq!(default_tailscale_ip(), "0.0.0.0");
    assert_eq!(default_log_level(), "info");
    assert_eq!(default_port(), 80);
    assert_eq!(default_shutdown_timeout(), 8000);
    assert_eq!(default_tracing_format(), TracingFormat::Json);
}

#[test]
fn durations_accept_numbers_and_suffixes() {
    assert_eq!(parse_duration_ms(b"5"), Ok(5000));
    assert_eq!(parse_duration_ms(b"30s"), Ok(30_000));
    assert_eq!(parse_duration_ms(b"200ms"), Ok(200));
    assert_eq!(parse_duration_ms(b"2m"), Ok(120_000));
    assert_eq!(parse_duration_ms(b"1500ms"), Ok(1500));
    assert_eq!(parse_duration_ms(b"2 m"), Ok(120_000));
    assert_eq!(parse_duration_ms(b"10s 2m"), Ok(130_000));
    assert_eq!(parse_duration_ms(b"  8  "), Ok(8000));
}

#[test]
fn durations_refuse_fractions_and_junk() {
    assert_eq!(parse_duration_ms(b""), Err(DurationParseError::Invalid));
    assert_eq!(parse_duration_ms(b"abc"), Err(DurationParseError::Invalid));
    assert_eq!(parse_duration_ms(b"1.5h"), Err(DurationParseError::Invalid));
    assert_eq!(parse_duration_ms(b"-3"), Err(DurationParseError::Invalid));
    assert_eq!(parse_duration_ms(b"5x"), Err(DurationParseError::Invalid));
    assert_eq!(
        parse_duration_ms(b"99999999999999999999999999"),
        Err(DurationParseError::TooLarge),
    );
}

#[test]
fn overlay_address_shapes() {
    assert!(check_ip_text(b"100.64.0.2"));
    assert!(check_ip_text(b"0.0.0.0"));
    assert!(check_ip_text(b"255.255.255.255"));
    assert!(check_ip_text(b"::1"));
    assert!(check_ip_text(b"::"));
    assert!(check_ip_text(b"1::"));
    assert!(check_ip_text(b"fd7a:115c:a1e0::1"));
    assert!(check_ip_text(b"FE80::A1"));
    assert!(check_ip_text(b"1:2:3:4:5:6:7:8"));
    assert!(check_ip_text(b"1:2:3:4:5:6:7::"));
    assert!(check_ip_text(b"::ffff:192.0.2.1"));
    assert!(check_ip_text(b"1:2:3:4:5:6:192.0.2.1"));
    assert!(!check_ip_text(b"256.1.1.1"));
    assert!(!check_ip_text(b"1.2.3"));
    assert!(!check_ip_text(b"01.2.3.4"));
    assert!(!check_ip_text(b"1.2.3.4.5"));
    assert!(!check_ip_text(b"hostname"));
    assert!(!check_ip_text(b""));
    assert!(!check_ip_text(b"1:2"));
    assert!(!check_ip_text(b":::"));
    assert!(!check_ip_text(b"1::2::3"));
    assert!(!check_ip_text(b"1:2:3:4:5:6:7:8:9"));
    assert!(!check_ip_text(b"1:2:3:4:5:6:7:8::"));
    assert!(!check_ip_text(b"12345::"));
    assert!(!check_ip_text(b":1:2:3:4:5:6:7"));
    assert!(!check_ip_text(b"1:2:3:4:5:6:7:"));
    assert!(!check_ip_text(b"::ffff:192.0.2.1:5"));
}

fn sample_config(pid: Option<Vec<u8>>, hostname: Option<Vec<u8>>, ip: &[u8]) -> Config {
    Config {
        hub_url: default_hub_url(),
        status_port: default_status_port(),
        provider: default_provider(),
        provider_instance_id: pid,
        hostname,
        tailscale_ip: ip.to_vec(),
        log_level: b"info".to_vec(),
    }
}

#[test]
fn hostname_falls_back_to_detection() {
    let c = sample_config(None, Some(b"configured".to_vec()), b"0.0.0.0");
    assert_eq!(c.get_hostname(b"detected".to_vec()), b"configured".to_vec());
    let d = sample_config(None, None, b"0.0.0.0");
    assert_eq!(d.get_hostname(b"detected".to_vec()), b"detected".to_vec());
}

#[test]
fn instance_id_falls_back_to_hostname_with_a_suffix() {
    let c = sample_config(Some(b"given-id".to_vec()), None, b"0.0.0.0");
    assert_eq!(c.get_provider_instance_id(&b"host".to_vec()), b"given-id".to_vec());
    let d = sample_config(None, None, b"0.0.0.0");
    let generated = d.get_provider_instance_id(&b"host".to_vec());
    assert_eq!(generated.len(), 4 + 9);
    assert_eq!(&generated[..5], b"host-");
    for b in &generated[5..] {
        assert!(b.is_ascii_hexdigit() && !b.is_ascii_uppercase());
    }
}

#[test]
fn tailscale_ip_is_validated() {
    let good = sample_config(None, None, b"100.64.0.2");
    assert_eq!(good.get_tailscale_ip(), Ok(b"100.64.0.2".to_vec()));
    let bad = sample_config(None, None, b"not-an-ip");
    // the refusal names the offending text
    assert_eq!(bad.get_tailscale_ip(), Err(b"not-an-ip".to_vec()));
}

#[test]
fn credentials_come_in_pairs() {
    let both = TailscaleConfig {
        client_id: Some(b"id".to_vec()),
        client_secret: Some(b"client-secret-value".to_vec()),
    };
    assert!(both.validate().is_ok());
    let o = both.oauth().unwrap();
    assert_eq!(o.client_id, b"id".to_vec());
    let neither = TailscaleConfig { client_id: None, client_secret: None };
    assert!(neither.validate().is_ok());
    assert!(neither.oauth().is_none());
    let lone_id = TailscaleConfig { client_id: Some(b"id".to_vec()), client_secret: None };
    assert_eq!(
        lone_id.validate().unwrap_err(),
        "HUB_TAILSCALE_CLIENT_SECRET is required when HUB_TAILSCALE_CLIENT_ID is set",
    );
    let lone_secret = TailscaleConfig { client_id: None, client_secret: Some(b"s".to_vec()) };
    assert_eq!(
        lone_secret.validate().unwrap_err(),
        "HUB_TAILSCALE_CLIENT_ID is required when HUB_TAILSCALE_CLIENT_SECRET is set",
    );
}
