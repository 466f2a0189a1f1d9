use omnitak::chunk::{chunk_payload, ChunkedPayload, Reassembler};

fn payload(n: usize) -> Vec<u8> {
    (0..n).map(|i| (i * 13 % 256) as u8).collect()
}

#[test]
fn chunked_pli_reassembles_out_of_order() {
    let p = payload(600);
    let chunks = chunk_payload(&p, 77);
    assert_eq!(chunks.len(), 4);
    assert!(chunks.iter().all(|c| c.payload_chunk.len() <= 180 && c.chunk_count == 4));
    let joined: Vec<u8> = chunks.iter().flat_map(|c| c.payload_chunk.clone()).collect();
    assert_eq!(joined, p);
    let mut r = Reassembler::new();
    let mut out = None;
    for i in [2usize, 0, 3, 1] {
        out = r.accept_chunk(chunks[i].clone(), 1_000);
        if i != 1 {
            assert!(out.is_none());
        }
    }
    assert_eq!(out, Some(p));
    assert_eq!(r.pending(), 0);
}

#[test]
fn duplicate_chunks_are_idempotent() {
    let p = payload(400);
    let chunks = chunk_payload(&p, 5);
    let mut r = Reassembler::new();
    assert!(r.accept_chunk(chunks[0].clone(), 0).is_none());
    assert!(r.accept_chunk(chunks[0].clone(), 0).is_none());
    assert!(r.accept_chunk(chunks[1].clone(), 0).is_none());
    assert_eq!(r.accept_chunk(chunks[2].clone(), 0), Some(p));
}

#[test]
fn expired_partial_is_dropped_before_new_chunk() {
    let a = chunk_payload(&payload(400), 1);
    let b = chunk_payload(&payload(400), 2);
    let mut r = Reassembler::new();
    assert!(r.accept_chunk(a[0].clone(), 0).is_none());
    assert_eq!(r.pending(), 1);
    assert!(r.accept_chunk(b[0].clone(), 60_001).is_none());
    assert_eq!(r.pending(), 1);
    // the first payload can no longer complete from its remaining chunks
    assert!(r.accept_chunk(a[1].clone(), 60_002).is_none());
    assert!(r.accept_chunk(a[2].clone(), 60_003).is_none());
    assert_eq!(r.pending(), 2);
}

#[test]
fn single_chunk_payload_and_bad_index() {
    let mut r = Reassembler::new();
    let one = ChunkedPayload { payload_id: 9, chunk_count: 1, chunk_index: 0, payload_chunk: vec![1, 2] };
    assert_eq!(r.accept_chunk(one, 0), Some(vec![1, 2]));
    let bad = ChunkedPayload { payload_id: 9, chunk_count: 2, chunk_index: 2, payload_chunk: vec![3] };
    assert_eq!(r.accept_chunk(bad, 0), None);
    assert_eq!(r.pending(), 0);
}

#[test]
fn tak_payloads_that_are_not_chunks_pass_through() {
    let mut r = Reassembler::new();
    assert_eq!(r.receive_tak_payload(None, vec![7, 8], 0), Some(vec![7, 8]));
    let single = ChunkedPayload { payload_id: 1, chunk_count: 1, chunk_index: 0, payload_chunk: vec![1] };
    assert_eq!(r.receive_tak_payload(Some(single), vec![9], 0), Some(vec![9]));
    let p = payload(300);
    let chunks = chunk_payload(&p, 4);
    assert_eq!(r.receive_tak_payload(Some(chunks[1].clone()), vec![0], 0), None);
    assert_eq!(r.receive_tak_payload(Some(chunks[0].clone()), vec![0], 0), Some(p));
    assert_eq!(r.pending(), 0);
}
