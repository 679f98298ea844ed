use kelicad_agent::agent::{message_kind, AppState, MessageKind, Session};
use kelicad_agent::protocol::{
    is_origin_allowed, now_ms, HandshakeRequest, AGENT_VERSION, ALLOWED_ORIGINS, PROTOCOL_VERSION, WS_PORT,
};

#[test]
fn test_is_origin_allowed_valid_origins() {
    assert!(is_origin_allowed("https://kelicad.com"));
    assert!(is_origin_allowed("https://www.kelicad.com"));
    assert!(is_origin_allowed("http://localhost:3000"));
    assert!(is_origin_allowed("http://127.0.0.1:3000"));
}

#[test]
fn test_is_origin_allowed_invalid_origins() {
    assert!(!is_origin_allowed("https://malicious.com"));
    assert!(!is_origin_allowed("http://localhost:8080"));
    assert!(!is_origin_allowed("https://kelicad.com.evil.com"));
    assert!(!is_origin_allowed(""));
}

#[test]
fn origin_match_is_case_sensitive() {
    assert!(!is_origin_allowed("https://KELICAD.com"));
    assert!(!is_origin_allowed("https://kelicad.com/"));
}

#[test]
fn test_now_ms_returns_reasonable_timestamp() {
    let ts = now_ms();
    // Should be after Jan 1, 2024 (1704067200000 ms)
    assert!(ts > 1704067200000);
    // Should be before Jan 1, 2100 (4102444800000 ms)
    assert!(ts < 4102444800000);
}

#[test]
fn test_constants() {
    assert_eq!(PROTOCOL_VERSION, "1.0.0");
    assert_eq!(AGENT_VERSION, "1.0.0");
    assert_eq!(WS_PORT, 9347);
    assert_eq!(ALLOWED_ORIGINS.len(), 4);
}

fn request(origin: &str) -> HandshakeRequest {
    HandshakeRequest {
        id: "test-123".to_string(),
        msg_type: "handshake".to_string(),
        origin: origin.to_string(),
        version: "1.0.0".to_string(),
        timestamp: 1704067200000,
    }
}

#[test]
fn handshake_from_unknown_origin_reveals_nothing() {
    let mut state = AppState::default();
    state.ltspice_path = Some("/Applications/LTspice.app".to_string());
    let r = state.handle_handshake(&request("https://malicious.com"));
    assert!(!r.success);
    assert_eq!(r.error, Some("Invalid origin".to_string()));
    assert!(!r.capabilities.ltspice_available);
    assert!(!r.capabilities.ngspice_available);
    assert!(r.capabilities.supported_analyses.is_empty());
    assert_eq!(r.ltspice_path, None);
    assert_eq!(r.msg_type, "handshake_response");
}

#[test]
fn handshake_from_allowed_origin_reports_capabilities() {
    let mut state = AppState::default();
    state.ltspice_path = Some("/Applications/LTspice.app".to_string());
    let r = state.handle_handshake(&request("https://kelicad.com"));
    assert!(r.success);
    assert_eq!(r.error, None);
    assert!(r.capabilities.ltspice_available);
    assert_eq!(r.capabilities.supported_analyses, vec!["transient", "ac", "dc"]);
    assert_eq!(r.capabilities.max_simulation_time, 120);
    assert_eq!(r.ltspice_path, Some("/Applications/LTspice.app".to_string()));
    assert_eq!(r.agent_version, "1.0.0");
    assert!(!r.id.is_empty());
}

#[test]
fn handshake_without_engine_reports_it_missing() {
    let state = AppState::default();
    let r = state.handle_handshake(&request("http://localhost:3000"));
    assert!(r.success);
    assert!(!r.capabilities.ltspice_available);
    assert_eq!(r.ltspice_path, None);
}

#[test]
fn message_kinds_are_matched_exactly() {
    assert!(matches!(message_kind("handshake"), MessageKind::Handshake));
    assert!(matches!(message_kind("simulate"), MessageKind::Simulate));
    assert!(matches!(message_kind("ping"), MessageKind::Ping));
    assert!(matches!(message_kind("cancel"), MessageKind::Cancel));
    assert!(matches!(message_kind("Ping"), MessageKind::Unknown));
    assert!(matches!(message_kind("status"), MessageKind::Unknown));
}

#[test]
fn session_takes_simulations_only_after_handshake() {
    let mut s = Session::new();
    assert!(!s.admits_simulation());
    s.record_handshake(false);
    assert!(!s.admits_simulation());
    s.record_handshake(true);
    assert!(s.admits_simulation());
}
