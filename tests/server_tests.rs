use omnitak::client::{extract_complete_message, update_info_from_cot, ClientInfo, ClientSession};
use omnitak::config::{ServerConfig, ServerError, TlsConfig, default_tcp_port, default_max_clients, default_client_timeout, default_debug};
use omnitak::router::{admits, ClientIds, CotRouter};

fn tls() -> TlsConfig {
    TlsConfig { cert_path: "c.pem".to_string(), key_path: "k.pem".to_string(), ca_path: None, require_client_cert: true }
}

#[test]
fn config_defaults_and_validation() {
    let d = ServerConfig::default();
    assert_eq!(d.tcp_port, default_tcp_port());
    assert_eq!(d.max_clients, default_max_clients());
    assert_eq!(d.client_timeout_secs, default_client_timeout());
    assert_eq!(d.debug, default_debug());
    assert!(d.validate().is_ok());
    let p = ServerConfig::production(tls());
    assert_eq!((p.tcp_port, p.tls_port, p.marti_port), (0, 8089, 8443));
    assert!(p.validate().is_ok());
    let none = ServerConfig { tcp_port: 0, ..ServerConfig::debug() };
    assert!(matches!(none.validate(), Err(ServerError::Config(_))));
    let no_tls = ServerConfig { tls_port: 8089, ..ServerConfig::debug() };
    assert!(matches!(no_tls.validate(), Err(ServerError::Config(_))));
    let zero = ServerConfig { max_clients: 0, ..ServerConfig::debug() };
    assert!(matches!(zero.validate(), Err(ServerError::Config(_))));
}

#[test]
fn two_client_broadcast() {
    let mut ids = ClientIds::new();
    let mut router = CotRouter::new(true);
    let c1 = ids.next_client_id();
    let c2 = ids.next_client_id();
    assert!(c1 < c2);
    router.register_client(c1);
    router.register_client(c2);
    let mut s1 = ClientSession::new(ClientInfo::new(c1, "127.0.0.1:50001"));
    let xml = "<event uid=\"client-1-marker\" type=\"a-f-G-U-C\"><point lat=\"37.7749\" lon=\"-122.4194\"/><detail><contact callsign=\"CLIENT-ONE\"/></detail></event>";
    let events = s1.on_data(xml.as_bytes());
    assert_eq!(events.len(), 1);
    assert_eq!(s1.info.uid.as_deref(), Some("client-1-marker"));
    assert_eq!(s1.info.callsign.as_deref(), Some("CLIENT-ONE"));
    assert_eq!(router.route_message(c1), vec![c2]);
    // reverse direction
    assert_eq!(router.route_message(c2), vec![c1]);
    assert_eq!(router.total_messages(), 2);
}

#[test]
fn fan_out_reaches_every_other_client_once() {
    let mut router = CotRouter::new(false);
    for id in 1..=5u64 {
        router.register_client(id);
    }
    router.register_client(3);
    assert_eq!(router.client_count(), 5);
    assert_eq!(router.route_message(3), vec![1, 2, 4, 5]);
    router.unregister_client(2);
    router.unregister_client(42);
    assert_eq!(router.route_message(1), vec![3, 4, 5]);
}

#[test]
fn ids_increase_and_admission_caps() {
    let mut ids = ClientIds::new();
    let a = ids.next_client_id();
    let b = ids.next_client_id();
    let c = ids.next_client_id();
    assert_eq!((a, b, c), (1, 2, 3));
    assert!(admits(2, 3));
    assert!(!admits(3, 3));
}

#[test]
fn stream_splits_at_event_end() {
    let mut s = ClientSession::new(ClientInfo::new(1, "peer"));
    assert!(s.on_data(b"  <?xml?><event uid=\"a\">").is_empty());
    let out = s.on_data(b"</event>\n<event uid=\"b\"></event><ev");
    assert_eq!(out.len(), 2);
    assert_eq!(out[0], b"  <?xml?><event uid=\"a\"></event>".to_vec());
    assert_eq!(out[1], b"\n<event uid=\"b\"></event>".to_vec());
    assert_eq!(s.buffer, b"<ev".to_vec());
    assert_eq!(s.info.get_received(), 2);
    assert_eq!(s.info.uid.as_deref(), Some("a"));
    let mut buf = b"x</event>y".to_vec();
    assert_eq!(extract_complete_message(&mut buf), Some(b"x</event>".to_vec()));
    assert_eq!(buf, b"y".to_vec());
    let mut info = ClientInfo::new(2, "p");
    update_info_from_cot(&mut info, b"<contact callsign=\"BRAVO\"/>");
    assert_eq!(info.callsign.as_deref(), Some("BRAVO"));
    assert!(info.uid.is_none());
    info.increment_sent();
    assert_eq!(info.get_sent(), 1);
}
