use vstd::prelude::*;
use crate::byteseq::{find, find_bytes_from, copy_range, append_bytes, occurs_at, lemma_find_from, lemma_find_from_is};

verus! {

/// First byte of the frame marker.
pub const START1: u8 = 0x94;

/// Second byte of the frame marker.
pub const START2: u8 = 0xC3;

/// Largest payload that a frame may carry.
pub const MAX_FRAME_PAYLOAD: usize = 512;

/// The two marker bytes that open every frame.
pub open spec fn magic() -> Seq<u8> {
    seq![START1, START2]
}

/// The big-endian length field of a frame starting at `b[0]`.
pub open spec fn frame_len(b: Seq<u8>) -> int {
    b[2] as int * 256 + b[3] as int
}

/// The frame for `payload`: marker, big-endian length, payload.
pub open spec fn frame(payload: Seq<u8>) -> Seq<u8> {
    magic() + seq![(payload.len() / 256) as u8, (payload.len() % 256) as u8] + payload
}

/// One extraction step on the receive buffer `b`: the payload of the first
/// complete frame, if any, and the bytes that stay buffered. Bytes before the
/// first marker are dropped (all but the last byte when there is no marker),
/// a header with a length above 512 is skipped, and an incomplete frame stays
/// whole.
pub open spec fn deframe(b: Seq<u8>) -> (Option<Seq<u8>>, Seq<u8>)
    decreases b.len(),
{
    match find(b, magic()) {
        None => (None, if b.len() > 1 { b.subrange(b.len() - 1, b.len() as int) } else { b }),
        Some(i) => {
            let r = b.subrange(i, b.len() as int);
            if i < 0 || i > b.len() || r.len() < 4 {
                (None, r)
            } else if frame_len(r) > 512 {
                deframe(r.subrange(4, r.len() as int))
            } else if r.len() < 4 + frame_len(r) {
                (None, r)
            } else {
                (
                    Some(r.subrange(4, 4 + frame_len(r))),
                    r.subrange(4 + frame_len(r), r.len() as int),
                )
            }
        },
    }
}

/// Why a frame could not be written.
#[derive(Clone, Copy, Debug, PartialEq, Eq, Structural)]
pub enum FrameError {
    /// The payload is longer than 512 bytes and must be chunked first.
    TooLong,
}

/// Takes the payload of the first complete frame out of `buffer` (see
/// `deframe`), leaving the unconsumed bytes in place.
pub fn extract_frame(buffer: &mut Vec<u8>) -> (r: Option<Vec<u8>>)
    ensures
        match r {
            Some(p) => deframe(old(buffer)@) == (Some(p@), final(buffer)@),
            None => deframe(old(buffer)@) == (None::<Seq<u8>>, final(buffer)@),
        },
{
    let mk: [u8; 2] = [START1, START2];
    assert(mk@ =~= magic());
    loop
        invariant
            deframe(buffer@) == deframe(old(buffer)@),
            mk@ == magic(),
        decreases buffer@.len(),
    {
        let n = buffer.len();
        let found = find_bytes_from(buffer.as_slice(), &mk, 0);
        proof {
            lemma_find_from(buffer@, mk@, 0);
        }
        let ghost b0 = buffer@;
        match found {
            None => {
                if n > 1 {
                    let rest = copy_range(buffer.as_slice(), n - 1, n);
                    *buffer = rest;
                }
                assert(deframe(b0) == (None::<Seq<u8>>, buffer@));
                return None;
            },
            Some(i) => {
                let r = copy_range(buffer.as_slice(), i, n);
                let ghost b = buffer@;
                *buffer = r;
                let m = buffer.len();
                assert(find(b0, magic()) == Some(i as int));
                if m < 4 {
                    assert(deframe(b0) == (None::<Seq<u8>>, buffer@));
                    return None;
                }
                let len: usize = buffer[2] as usize * 256 + buffer[3] as usize;
                assert(len == frame_len(buffer@));
                if len > MAX_FRAME_PAYLOAD {
                    let rest = copy_range(buffer.as_slice(), 4, m);
                    *buffer = rest;
                    assert(deframe(b) == deframe(buffer@));
                } else if m < 4 + len {
                    return None;
                } else {
                    let payload = copy_range(buffer.as_slice(), 4, 4 + len);
                    let rest = copy_range(buffer.as_slice(), 4 + len, m);
                    *buffer = rest;
                    return Some(payload);
                }
            },
        }
    }
}

/// The frame for `payload` (see `frame`); `TooLong` above 512 bytes.
pub fn encode_frame(payload: &[u8]) -> (r: Result<Vec<u8>, FrameError>)
    ensures
        payload@.len() <= 512 ==> (r matches Ok(f) && f@ == frame(payload@)),
        payload@.len() > 512 ==> r == Err::<Vec<u8>, FrameError>(FrameError::TooLong),
{
    let n = payload.len();
    if n > MAX_FRAME_PAYLOAD {
        return Err(FrameError::TooLong);
    }
    let mut f: Vec<u8> = Vec::new();
    f.push(START1);
    f.push(START2);
    f.push((n / 256) as u8);
    f.push((n % 256) as u8);
    append_bytes(&mut f, payload);
    assert(f@ =~= frame(payload@));
    Ok(f)
}

proof fn lemma_frame_header(p: Seq<u8>)
    requires
        p.len() <= 512,
    ensures
        frame(p).len() == 4 + p.len() as int,
        find(frame(p), magic()) == Some(0int),
        frame_len(frame(p)) == p.len(),
{
    let f = frame(p);
    assert(f.subrange(0, 2) =~= magic());
    lemma_find_from_is(f, magic(), 0, 0);
}

/// Extracting from the frame of a payload of at most 512 bytes gives the
/// payload back and leaves the buffer empty.
pub proof fn lemma_frame_round_trip(p: Seq<u8>)
    requires
        p.len() <= 512,
    ensures
        deframe(frame(p)) == (Some(p), Seq::<u8>::empty()),
{
    let f = frame(p);
    lemma_frame_header(p);
    assert(f.subrange(0, f.len() as int) =~= f);
    assert(f.subrange(4, 4 + p.len() as int) =~= p);
    assert(f.subrange(4 + p.len() as int, f.len() as int) =~= Seq::<u8>::empty());
}

/// Garbage without a marker before a frame is dropped: extraction gives the
/// frame's payload and leaves exactly the bytes after it (such as the start
/// of the next, incomplete frame).
pub proof fn lemma_frame_resync(garbage: Seq<u8>, p: Seq<u8>, tail: Seq<u8>)
    requires
        p.len() <= 512,
        find(garbage, magic()) is None,
    ensures
        deframe(garbage + frame(p) + tail) == (Some(p), tail),
{
    let f = frame(p);
    let b = garbage + f + tail;
    let g = garbage.len() as int;
    lemma_frame_header(p);
    lemma_find_from(garbage, magic(), 0);
    assert forall|j: int| 0 <= j < g implies !occurs_at(b, magic(), j) by {
        if j + 1 < g {
            assert(b.subrange(j, j + 2) =~= garbage.subrange(j, j + 2));
            assert(!occurs_at(garbage, magic(), j));
        } else {
            assert(b[j + 1] == f[0]);
            assert(f[0] == 0x94u8);
            assert(b.subrange(j, j + 2)[1] == b[j + 1]);
            assert(magic()[1] == 0xC3u8);
        }
    }
    assert(b.subrange(g, g + 2) =~= magic());
    lemma_find_from_is(b, magic(), 0, g);
    let r = b.subrange(g, b.len() as int);
    assert(r =~= f + tail);
    assert(r.subrange(4, 4 + p.len() as int) =~= p);
    assert(r.subrange(4 + p.len() as int, r.len() as int) =~= tail);
}

/// A buffer that holds the beginning of a frame, however short, is kept
/// whole and yields nothing, so bytes that arrive one at a time never lose a
/// frame; the last byte completes it.
pub proof fn lemma_frame_prefix_kept(p: Seq<u8>, k: int)
    requires
        p.len() <= 512,
        0 < k < frame(p).len(),
    ensures
        deframe(frame(p).subrange(0, k)) == (None::<Seq<u8>>, frame(p).subrange(0, k)),
{
    let f = frame(p);
    let b = f.subrange(0, k);
    lemma_frame_header(p);
    if k == 1 {
        crate::byteseq::lemma_find_from_none(b, magic(), 0);
    } else {
        assert(b.subrange(0, 2) =~= magic());
        lemma_find_from_is(b, magic(), 0, 0);
        assert(b.subrange(0, b.len() as int) =~= b);
    }
}

/// The receive buffer after the first `k` bytes of `s` arrive one at a time,
/// one extraction following each, from an empty buffer.
pub open spec fn buffer_after(s: Seq<u8>, k: int) -> Seq<u8>
    decreases k,
{
    if k <= 0 {
        Seq::empty()
    } else {
        deframe(buffer_after(s, k - 1).push(s[k - 1])).1
    }
}

/// What the extraction after byte `k` of `s` (counting from 1) yields.
pub open spec fn output_at(s: Seq<u8>, k: int) -> Option<Seq<u8>> {
    deframe(buffer_after(s, k - 1).push(s[k - 1])).0
}

proof fn lemma_short_kept(b: Seq<u8>)
    requires
        b.len() <= 2,
        b.len() == 2 ==> !(b[0] == START1 && b[1] == START2),
    ensures
        deframe(b) == (None::<Seq<u8>>, if b.len() > 1 { b.subrange(1, 2) } else { b }),
{
    assert forall|j: int| 0 <= j implies !occurs_at(b, magic(), j) by {
        if occurs_at(b, magic(), j) {
            assert(b.subrange(j, j + 2)[0] == b[j]);
            assert(b.subrange(j, j + 2)[1] == b[j + 1]);
        }
    }
    crate::byteseq::lemma_find_from_none(b, magic(), 0);
}

proof fn lemma_garbage_phase(g: Seq<u8>, p: Seq<u8>, k: int)
    requires
        find(g, magic()) is None,
        0 <= k <= g.len(),
    ensures
        buffer_after(g + frame(p), k) == (if k == 0 { Seq::<u8>::empty() } else { seq![g[k - 1]] }),
    decreases k,
{
    let s = g + frame(p);
    if k > 0 {
        lemma_garbage_phase(g, p, k - 1);
        let b = buffer_after(s, k - 1).push(s[k - 1]);
        if k == 1 {
            assert(b =~= seq![g[0]]);
            lemma_short_kept(b);
        } else {
            assert(b =~= seq![g[k - 2], g[k - 1]]);
            lemma_find_from(g, magic(), 0);
            assert(!occurs_at(g, magic(), k - 2));
            assert(g.subrange(k - 2, k) =~= b);
            lemma_short_kept(b);
            assert(b.subrange(1, 2) =~= seq![g[k - 1]]);
        }
    }
}

proof fn lemma_frame_phase(g: Seq<u8>, p: Seq<u8>, j: int)
    requires
        find(g, magic()) is None,
        p.len() <= 512,
        1 <= j <= frame(p).len(),
    ensures
        j < frame(p).len() ==> buffer_after(g + frame(p), g.len() + j) == frame(p).subrange(0, j),
        j == frame(p).len() ==> output_at(g + frame(p), g.len() + j) == Some(p)
            && buffer_after(g + frame(p), g.len() + j) == Seq::<u8>::empty(),
    decreases j,
{
    let s = g + frame(p);
    let f = frame(p);
    lemma_frame_header(p);
    let k = g.len() + j;
    assert(s[k - 1] == f[j - 1]);
    let b = buffer_after(s, k - 1).push(s[k - 1]);
    if j == 1 {
        lemma_garbage_phase(g, p, g.len() as int);
        assert(f[0] == START1);
        if g.len() == 0 {
            assert(b =~= seq![f[0]]);
        } else {
            assert(b =~= seq![g[g.len() - 1], f[0]]);
        }
        lemma_short_kept(b);
        assert(f.subrange(0, 1) =~= seq![f[0]]);
        if g.len() > 0 {
            assert(b.subrange(1, 2) =~= seq![f[0]]);
        }
    } else {
        lemma_frame_phase(g, p, j - 1);
        assert(b =~= f.subrange(0, j));
        if j < f.len() {
            lemma_frame_prefix_kept(p, j);
        } else {
            assert(f.subrange(0, j) =~= f);
            lemma_frame_round_trip(p);
        }
    }
}

/// Bytes that arrive one at a time never lose a frame: after garbage without
/// a marker, the frame of a payload of at most 512 bytes comes out whole when
/// its last byte arrives, and the buffer is then empty.
pub proof fn lemma_frame_byte_by_byte(g: Seq<u8>, p: Seq<u8>)
    requires
        find(g, magic()) is None,
        p.len() <= 512,
    ensures
        output_at(g + frame(p), (g + frame(p)).len() as int) == Some(p),
        buffer_after(g + frame(p), (g + frame(p)).len() as int) == Seq::<u8>::empty(),
{
    lemma_frame_header(p);
    lemma_frame_phase(g, p, frame(p).len() as int);
}

} // verus!
