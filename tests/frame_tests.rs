use omnitak::frame::{encode_frame, extract_frame, FrameError};

fn payload(n: usize) -> Vec<u8> {
    (0..n).map(|i| (i * 7 % 251) as u8).collect()
}

#[test]
fn framed_round_trip() {
    let p = payload(150);
    let f = encode_frame(&p).unwrap();
    assert_eq!(&f[..4], &[0x94, 0xC3, 0x00, 150]);
    let mut buf = f.clone();
    assert_eq!(extract_frame(&mut buf), Some(p));
    assert!(buf.is_empty());
}

#[test]
fn largest_frame_and_too_long() {
    let p = payload(512);
    let mut buf = encode_frame(&p).unwrap();
    assert_eq!(extract_frame(&mut buf), Some(p));
    assert_eq!(encode_frame(&payload(513)), Err(FrameError::TooLong));
}

#[test]
fn resync_after_garbage_keeps_partial_tail() {
    let p = payload(20);
    let mut buf = vec![1, 2, 0x94, 3, 0xC3, 9];
    buf.extend(encode_frame(&p).unwrap());
    let tail = encode_frame(&payload(30)).unwrap()[..10].to_vec();
    buf.extend(&tail);
    assert_eq!(extract_frame(&mut buf), Some(p));
    assert_eq!(buf, tail);
    assert_eq!(extract_frame(&mut buf), None);
    assert_eq!(buf, tail);
}

#[test]
fn bytes_one_at_a_time_never_lose_a_frame() {
    let p = payload(40);
    let f = encode_frame(&p).unwrap();
    let mut buf = vec![0x11, 0x94];
    let mut got = None;
    for b in f {
        buf.push(b);
        if let Some(x) = extract_frame(&mut buf) {
            got = Some(x);
        }
    }
    assert_eq!(got, Some(p));
    assert!(buf.is_empty());
}

#[test]
fn oversized_header_is_skipped() {
    let mut buf = vec![0x94, 0xC3, 0x02, 0x01];
    let p = payload(5);
    buf.extend(encode_frame(&p).unwrap());
    assert_eq!(extract_frame(&mut buf), Some(p));
}

#[test]
fn no_marker_keeps_last_byte() {
    let mut buf = vec![5, 6, 7, 0x94];
    assert_eq!(extract_frame(&mut buf), None);
    assert_eq!(buf, vec![0x94]);
}

/// A `ToRadio` envelope whose packet carries a `Data` of 150 payload bytes,
/// encoded field by field with prost's wire-format functions.
fn packet_envelope() -> Vec<u8> {
    let mut data = Vec::new();
    prost::encoding::int32::encode(1, &257, &mut data);
    prost::encoding::bytes::encode(2, &payload(150), &mut data);
    let mut packet = Vec::new();
    prost::encoding::fixed32::encode(2, &0xFFFF_FFFFu32, &mut packet);
    prost::encoding::bytes::encode(4, &data, &mut packet);
    prost::encoding::uint32::encode(9, &3, &mut packet);
    let mut envelope = Vec::new();
    prost::encoding::bytes::encode(1, &packet, &mut envelope);
    envelope
}

#[test]
fn packet_envelope_frame_round_trip() {
    let env = packet_envelope();
    assert!(env.len() > 150 && env.len() <= 512);
    let mut buf = encode_frame(&env).unwrap();
    assert_eq!(extract_frame(&mut buf), Some(env));
    assert!(buf.is_empty());
}
