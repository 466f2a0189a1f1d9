use omnitak::mesh::{
    build_pli_cot, chat_cot_at, chunk_packet, cot_to_meshtastic, port_kind, position_cot_at,
    tak_cot_at, tak_packet_for_cot, MeshtasticError, OutboundPlan, PliLocation, PortKind,
    Position, TakPacket, BROADCAST, PRIORITY_DEFAULT, PRIORITY_RELIABLE,
};
use omnitak::cot::CotMessage;

#[test]
fn position_synthesis() {
    let pos = Position { latitude_i: 377749000, longitude_i: -1221940000, altitude: 10 };
    let xml = position_cot_at(&pos, 0x12345678, 1_700_000_000_000).unwrap();
    let m = CotMessage::from_xml(&xml).unwrap();
    assert_eq!(m.uid, "MESHTASTIC-305419896");
    assert!(xml.contains("callsign=\"Mesh-12345678\""));
    assert_eq!(m.point.lat, 377_749_000);
    assert_eq!(m.point.lon, -1_221_940_000);
    assert_eq!(m.point.hae, 100_000_000);
    assert_eq!(m.event_type, "a-f-G-U-C");
    assert_eq!(m.how, "m-g");
    assert_eq!(m.stale - m.time, 300_000);
    assert!(xml.contains("lat=\"37.7749\" lon=\"-122.194\""));
}

#[test]
fn small_node_callsign_is_zero_padded() {
    let xml = build_pli_cot("U", "C", 0, 0, 0, 0).unwrap();
    assert!(xml.contains("<contact callsign=\"C\" />"));
    let pos = Position { latitude_i: 0, longitude_i: 0, altitude: 0 };
    let xml = position_cot_at(&pos, 0xAB, 0).unwrap();
    assert!(xml.contains("Mesh-000000AB"));
    assert!(xml.contains("uid=\"MESHTASTIC-171\""));
}

#[test]
fn chat_event_carries_text() {
    let xml = chat_cot_at("hello mesh", 1, 1_700_000_000_000, "E-1", "C-1").unwrap();
    let m = CotMessage::from_xml(&xml).unwrap();
    assert_eq!(m.uid, "E-1");
    assert_eq!(m.event_type, "b-t-f");
    assert_eq!(m.stale - m.time, 600_000);
    assert!(xml.contains("hello mesh"));
    assert!(xml.contains("source=\"BAO.F.ATAK.Mesh-00000001\""));
    assert!(xml.contains("<__chat id=\"C-1\""));
}

#[test]
fn tak_packet_prefers_cot_text() {
    let t = TakPacket {
        is_compressed: false,
        contact_callsign: "ALPHA".to_string(),
        contact_uid: "A-1".to_string(),
        pli_location: Some(PliLocation { latitude: 10, longitude: 20, altitude: 5 }),
        group: 0,
        status: 0,
        cot: b"<event uid=\"x\"/>".to_vec(),
    };
    assert_eq!(tak_cot_at(&t, 0).unwrap(), "<event uid=\"x\"/>");
    let pli = TakPacket { cot: Vec::new(), ..t.clone() };
    let xml = tak_cot_at(&pli, 0).unwrap();
    assert!(xml.contains("uid=\"A-1\""));
    assert!(xml.contains("hae=\"5\""));
    let none = TakPacket { pli_location: None, ..pli };
    assert!(matches!(tak_cot_at(&none, 0), Err(MeshtasticError::ConversionError(_))));
}

#[test]
fn cot_becomes_tak_packet() {
    let m = CotMessage::at("client-1-marker", "a-f-G-U-C", omnitak::cot::Point {
        lat: 377_749_000, lon: -1_224_194_000, hae: -25_000_000, ce: 0, le: 0 }, 0);
    let xml = m.to_xml().unwrap();
    let t = tak_packet_for_cot(&xml).unwrap();
    assert_eq!(t.contact_uid, "client-1-marker");
    assert_eq!(t.contact_callsign, "client-1-marker");
    assert_eq!(t.pli_location, Some(PliLocation { latitude: 377_749_000, longitude: -1_224_194_000, altitude: -2 }));
    assert_eq!(t.cot, xml.as_bytes().to_vec());
    assert!(matches!(tak_packet_for_cot("not xml"), Err(MeshtasticError::ConversionError(_))));
}

#[test]
fn small_payload_travels_alone_large_is_chunked() {
    match cot_to_meshtastic(vec![1; 200], None, 42, 7).unwrap() {
        OutboundPlan::Single(p) => {
            assert_eq!(p.to, BROADCAST);
            assert_eq!(p.id, 42);
            assert!(!p.want_ack);
            assert_eq!(p.priority, PRIORITY_DEFAULT);
            assert_eq!(p.hop_limit, 3);
            assert_eq!(p.decoded.unwrap().payload, vec![1; 200]);
        }
        _ => panic!("expected one packet"),
    }
    match cot_to_meshtastic(vec![2; 201], Some(9), 42, 7).unwrap() {
        OutboundPlan::Chunked(cs) => {
            assert_eq!(cs.len(), 2);
            assert_eq!(cs[1].payload_chunk.len(), 21);
            assert!(cs.iter().all(|c| c.payload_id == 7));
        }
        _ => panic!("expected chunks"),
    }
    let p = chunk_packet(vec![3, 4], Some(9), 11);
    assert_eq!(p.to, 9);
    assert!(p.want_ack);
    assert_eq!(p.priority, PRIORITY_RELIABLE);
}

#[test]
fn ports_are_classified() {
    assert_eq!(port_kind(257), PortKind::Tak);
    assert_eq!(port_kind(72), PortKind::Tak);
    assert_eq!(port_kind(3), PortKind::Position);
    assert_eq!(port_kind(1), PortKind::Text);
    assert_eq!(port_kind(4), PortKind::Other);
}

#[test]
fn payload_beyond_chunk_limit_is_refused() {
    let huge = vec![0u8; 180 * 65535 + 1];
    assert!(matches!(
        cot_to_meshtastic(huge, None, 1, 2),
        Err(MeshtasticError::ChunkingError(_))
    ));
}
