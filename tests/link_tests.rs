use omnitak::link::{
    CertBundle, ConnectionConfig, ConnectionState, LinkEvent, MobileError, Protocol,
};

#[test]
fn test_protocol_from_string() {
    assert_eq!(Protocol::from("tcp"), Protocol::Tcp);
    assert_eq!(Protocol::from("udp"), Protocol::Udp);
    assert_eq!(Protocol::from("tls"), Protocol::Tls);
    assert_eq!(Protocol::from("ws"), Protocol::WebSocket);
}

#[test]
fn protocol_names_ignore_case_and_default_to_tcp() {
    assert_eq!(Protocol::from("SSL"), Protocol::Tls);
    assert_eq!(Protocol::from("WebSocket"), Protocol::WebSocket);
    assert_eq!(Protocol::from("Mesh"), Protocol::Meshtastic);
    assert_eq!(Protocol::from("carrier-pigeon"), Protocol::Tcp);
    assert_eq!(Protocol::Meshtastic.to_string(), "meshtastic");
    assert_eq!(Protocol::WebSocket.to_string(), "ws");
}

#[test]
fn test_connection_config() {
    let config = ConnectionConfig::new("192.168.1.100", 8087, Protocol::Tcp);
    assert_eq!(config.host, "192.168.1.100");
    assert_eq!(config.port, 8087);
    assert_eq!(config.protocol, Protocol::Tcp);
    assert!(!config.use_tls);
}

#[test]
fn connection_config_with_tls_keeps_address() {
    let config = ConnectionConfig::new("tak.example", 8089, Protocol::Tls).with_tls(
        Some("cert".to_string()),
        None,
        Some("ca".to_string()),
    );
    assert!(config.use_tls);
    assert_eq!(config.host, "tak.example");
    assert_eq!(config.cert_pem, Some("cert".to_string()));
    assert_eq!(config.key_pem, None);
}

#[test]
fn test_cert_bundle() {
    let bundle = CertBundle::new(Some("cert".to_string()), Some("key".to_string()), None);
    assert!(bundle.has_client_cert());
    assert!(!bundle.has_ca());
}

#[test]
fn test_cert_bundle_empty() {
    let bundle = CertBundle::new(None, None, None);
    assert!(!bundle.has_client_cert());
    assert!(!bundle.has_ca());
}

#[test]
fn mobile_error_codes() {
    assert_eq!(MobileError::NotInitialized.to_error_code(), -1);
    assert_eq!(MobileError::ConnectionNotFound(7).to_error_code(), -2);
    assert_eq!(MobileError::RuntimeError("x".to_string()).to_error_code(), -7);
}

#[test]
fn link_state_machine() {
    let s = ConnectionState::Disconnected.next(LinkEvent::Open);
    assert_eq!(s, ConnectionState::Connecting);
    assert_eq!(s.next(LinkEvent::IoError), ConnectionState::Failed);
    let c = s.next(LinkEvent::Opened);
    assert_eq!(c, ConnectionState::Connected);
    assert_eq!(c.next(LinkEvent::Closed), ConnectionState::Disconnected);
    assert_eq!(ConnectionState::Failed.next(LinkEvent::Open), ConnectionState::Failed);
    assert_eq!(c.to_string(), "connected");
}
