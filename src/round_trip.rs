use vstd::prelude::*;
use vstd::utf8::{encode_utf8};
use crate::byteseq::{find, find_from, lemma_find_from};
use crate::cot::{CotError, CotView, attr_pattern, attribute_value, cot_decode, cot_encode, detail_part, detail_section, is_time_char, point_section, rfc3339_millis_text, rfc3339_millis_value, xml_with_times};
use crate::decimal::{fixed_text, lemma_fixed_round_trip, lemma_fixed_text_bytes};
use crate::scan::{lacks, lemma_found_from, lemma_found_in_literal, lemma_free, lemma_free_upto, lemma_not_found, lemma_quote_after, lemma_scan_literal, lemma_scan_value_attr, lemma_scan_value_closed, lemma_scan_value_first, no_occ};
use crate::xml_text::{ce_open, detail_close, detail_open, event_close, hae_open, head, how_open, lat_open, le_open, lon_open, name_ce, name_hae, name_how, name_lat, name_le, name_lon, name_stale, name_start, name_time, name_type, name_uid, point_close, point_tag, stale_open, start_open, tag_end, time_open, type_open};

verus! {


/// Text of an attribute that survives a document: its UTF-8 bytes hold no
/// quote, no `=` and no `<`.
pub open spec fn attr_text_ok(s: Seq<char>) -> bool {
    &&& lacks(encode_utf8(s), 34u8)
    &&& lacks(encode_utf8(s), 61u8)
    &&& lacks(encode_utf8(s), 60u8)
}

/// A detail that survives a document: its UTF-8 bytes hold no `</detail>`.
pub open spec fn detail_ok(d: Option<Seq<char>>) -> bool {
    match d {
        Some(t) => find(encode_utf8(t), detail_close()) is None,
        None => true,
    }
}

/// What reading back the document of `v` gives: `v` itself, with each instant
/// replaced by what chrono reads from what chrono wrote for it.
pub open spec fn read_back(v: CotView) -> Result<CotView, CotError> {
    let t1 = rfc3339_millis_text(v.time)->Some_0;
    let t2 = rfc3339_millis_text(v.start)->Some_0;
    let t3 = rfc3339_millis_text(v.stale)->Some_0;
    match (rfc3339_millis_value(t1), rfc3339_millis_value(t2), rfc3339_millis_value(t3)) {
        (Some(a), Some(b), Some(c)) => Ok(CotView { time: a, start: b, stale: c, ..v }),
        _ => Err(CotError::BadTime),
    }
}


proof fn lemma_time_bytes(t: Seq<char>)
    requires
        forall|i: int| 0 <= i < t.len() ==> is_time_char(#[trigger] t[i]),
    ensures
        lacks(encode_utf8(t), 34u8),
        lacks(encode_utf8(t), 61u8),
        lacks(encode_utf8(t), 60u8),
        lacks(encode_utf8(t), 47u8),
{
    assert(vstd::utf8::is_ascii_chars(t)) by {
        assert forall|i: int| 0 <= i < t.len() implies '\0' <= #[trigger] t[i] <= '\u{7f}' by {
            assert(is_time_char(t[i]));
        }
    }
    vstd::utf8::is_ascii_chars_encode_utf8(t);
    let e = encode_utf8(t);
    assert forall|i: int| 0 <= i < e.len() implies e[i] != 34u8 && e[i] != 61u8 && e[i] != 60u8
        && e[i] != 47u8 by {
        assert(t[i] as u8 == e[i]);
        assert(is_time_char(t[i]));
    }
}

proof fn lemma_number_bytes(x: int)
    ensures
        lacks(fixed_text(x), 34u8),
        lacks(fixed_text(x), 61u8),
        lacks(fixed_text(x), 60u8),
        lacks(fixed_text(x), 47u8),
{
    lemma_fixed_text_bytes(x);
}


/// Piece `k` of the document of `v` up to the end of its point element:
/// literal pieces at even positions, the texts they frame at odd ones.
pub open spec fn piece(v: CotView, t1: Seq<char>, t2: Seq<char>, t3: Seq<char>, k: int) -> Seq<u8> {
    if k == 0 {
        head()
    } else if k == 1 {
        encode_utf8(v.uid)
    } else if k == 2 {
        type_open()
    } else if k == 3 {
        encode_utf8(v.event_type)
    } else if k == 4 {
        how_open()
    } else if k == 5 {
        encode_utf8(v.how)
    } else if k == 6 {
        time_open()
    } else if k == 7 {
        encode_utf8(t1)
    } else if k == 8 {
        start_open()
    } else if k == 9 {
        encode_utf8(t2)
    } else if k == 10 {
        stale_open()
    } else if k == 11 {
        encode_utf8(t3)
    } else if k == 12 {
        lat_open()
    } else if k == 13 {
        fixed_text(v.point.lat as int)
    } else if k == 14 {
        lon_open()
    } else if k == 15 {
        fixed_text(v.point.lon as int)
    } else if k == 16 {
        hae_open()
    } else if k == 17 {
        fixed_text(v.point.hae as int)
    } else if k == 18 {
        ce_open()
    } else if k == 19 {
        fixed_text(v.point.ce as int)
    } else if k == 20 {
        le_open()
    } else if k == 21 {
        fixed_text(v.point.le as int)
    } else {
        point_close()
    }
}

/// Where piece `k` starts.
pub open spec fn off(v: CotView, t1: Seq<char>, t2: Seq<char>, t3: Seq<char>, k: int) -> int
    decreases k,
{
    if k <= 0 {
        0
    } else {
        off(v, t1, t2, t3, k - 1) + piece(v, t1, t2, t3, k - 1).len()
    }
}

/// Each piece stands at its place in the document.
pub open spec fn laid_out(v: CotView, t1: Seq<char>, t2: Seq<char>, t3: Seq<char>) -> bool {
    let h = xml_with_times(v, t1, t2, t3);
    &&& h.subrange(off(v, t1, t2, t3, 0), off(v, t1, t2, t3, 1)) == piece(v, t1, t2, t3, 0)
    &&& h.subrange(off(v, t1, t2, t3, 1), off(v, t1, t2, t3, 2)) == piece(v, t1, t2, t3, 1)
    &&& h.subrange(off(v, t1, t2, t3, 2), off(v, t1, t2, t3, 3)) == piece(v, t1, t2, t3, 2)
    &&& h.subrange(off(v, t1, t2, t3, 3), off(v, t1, t2, t3, 4)) == piece(v, t1, t2, t3, 3)
    &&& h.subrange(off(v, t1, t2, t3, 4), off(v, t1, t2, t3, 5)) == piece(v, t1, t2, t3, 4)
    &&& h.subrange(off(v, t1, t2, t3, 5), off(v, t1, t2, t3, 6)) == piece(v, t1, t2, t3, 5)
    &&& h.subrange(off(v, t1, t2, t3, 6), off(v, t1, t2, t3, 7)) == piece(v, t1, t2, t3, 6)
    &&& h.subrange(off(v, t1, t2, t3, 7), off(v, t1, t2, t3, 8)) == piece(v, t1, t2, t3, 7)
    &&& h.subrange(off(v, t1, t2, t3, 8), off(v, t1, t2, t3, 9)) == piece(v, t1, t2, t3, 8)
    &&& h.subrange(off(v, t1, t2, t3, 9), off(v, t1, t2, t3, 10)) == piece(v, t1, t2, t3, 9)
    &&& h.subrange(off(v, t1, t2, t3, 10), off(v, t1, t2, t3, 11)) == piece(v, t1, t2, t3, 10)
    &&& h.subrange(off(v, t1, t2, t3, 11), off(v, t1, t2, t3, 12)) == piece(v, t1, t2, t3, 11)
    &&& h.subrange(off(v, t1, t2, t3, 12), off(v, t1, t2, t3, 13)) == piece(v, t1, t2, t3, 12)
    &&& h.subrange(off(v, t1, t2, t3, 13), off(v, t1, t2, t3, 14)) == piece(v, t1, t2, t3, 13)
    &&& h.subrange(off(v, t1, t2, t3, 14), off(v, t1, t2, t3, 15)) == piece(v, t1, t2, t3, 14)
    &&& h.subrange(off(v, t1, t2, t3, 15), off(v, t1, t2, t3, 16)) == piece(v, t1, t2, t3, 15)
    &&& h.subrange(off(v, t1, t2, t3, 16), off(v, t1, t2, t3, 17)) == piece(v, t1, t2, t3, 16)
    &&& h.subrange(off(v, t1, t2, t3, 17), off(v, t1, t2, t3, 18)) == piece(v, t1, t2, t3, 17)
    &&& h.subrange(off(v, t1, t2, t3, 18), off(v, t1, t2, t3, 19)) == piece(v, t1, t2, t3, 18)
    &&& h.subrange(off(v, t1, t2, t3, 19), off(v, t1, t2, t3, 20)) == piece(v, t1, t2, t3, 19)
    &&& h.subrange(off(v, t1, t2, t3, 20), off(v, t1, t2, t3, 21)) == piece(v, t1, t2, t3, 20)
    &&& h.subrange(off(v, t1, t2, t3, 21), off(v, t1, t2, t3, 22)) == piece(v, t1, t2, t3, 21)
    &&& h.subrange(off(v, t1, t2, t3, 22), off(v, t1, t2, t3, 23)) == piece(v, t1, t2, t3, 22)
    &&& off(v, t1, t2, t3, 23) <= h.len()
}

/// The first `k` pieces one after the other.
pub open spec fn build(v: CotView, t1: Seq<char>, t2: Seq<char>, t3: Seq<char>, k: int) -> Seq<u8>
    decreases k,
{
    if k <= 0 {
        Seq::empty()
    } else {
        build(v, t1, t2, t3, k - 1) + piece(v, t1, t2, t3, k - 1)
    }
}

proof fn lemma_build(v: CotView, t1: Seq<char>, t2: Seq<char>, t3: Seq<char>, m: int)
    requires
        0 <= m,
    ensures
        build(v, t1, t2, t3, m).len() == off(v, t1, t2, t3, m),
        forall|k: int|
            0 <= k < m ==> build(v, t1, t2, t3, m).subrange(off(v, t1, t2, t3, k), off(v, t1, t2, t3, k + 1))
                == #[trigger] piece(v, t1, t2, t3, k),
        forall|k: int| 0 <= k <= m ==> 0 <= #[trigger] off(v, t1, t2, t3, k) <= off(v, t1, t2, t3, m),
    decreases m,
{
    if m > 0 {
        lemma_build(v, t1, t2, t3, m - 1);
        let b = build(v, t1, t2, t3, m);
        let d = build(v, t1, t2, t3, m - 1);
        assert forall|k: int| 0 <= k < m implies b.subrange(off(v, t1, t2, t3, k), off(v, t1, t2, t3, k + 1))
            == #[trigger] piece(v, t1, t2, t3, k) by {
            if k < m - 1 {
                assert(off(v, t1, t2, t3, k + 1) <= off(v, t1, t2, t3, m - 1));
                assert(b.subrange(off(v, t1, t2, t3, k), off(v, t1, t2, t3, k + 1)) =~= d.subrange(
                    off(v, t1, t2, t3, k),
                    off(v, t1, t2, t3, k + 1),
                ));
            } else {
                assert(b.subrange(off(v, t1, t2, t3, k), off(v, t1, t2, t3, k + 1)) =~= piece(
                    v,
                    t1,
                    t2,
                    t3,
                    k,
                ));
            }
        }
        assert forall|k: int| 0 <= k <= m implies 0 <= #[trigger] off(v, t1, t2, t3, k) <= off(v, t1, t2, t3, m) by {
            if k < m {
                assert(off(v, t1, t2, t3, k) <= off(v, t1, t2, t3, m - 1));
            }
        }
    }
}

#[verifier::rlimit(100)]
#[verifier::spinoff_prover]
proof fn lemma_built(v: CotView, t1: Seq<char>, t2: Seq<char>, t3: Seq<char>)
    ensures
        xml_with_times(v, t1, t2, t3) == build(v, t1, t2, t3, 23) + detail_part(v.detail) + event_close(),
{
    reveal(xml_with_times);
    reveal_with_fuel(build, 24);
    assert(build(v, t1, t2, t3, 1) == build(v, t1, t2, t3, 0) + piece(v, t1, t2, t3, 0));
    assert(build(v, t1, t2, t3, 2) == build(v, t1, t2, t3, 1) + piece(v, t1, t2, t3, 1));
    assert(build(v, t1, t2, t3, 3) == build(v, t1, t2, t3, 2) + piece(v, t1, t2, t3, 2));
    assert(build(v, t1, t2, t3, 4) == build(v, t1, t2, t3, 3) + piece(v, t1, t2, t3, 3));
    assert(build(v, t1, t2, t3, 5) == build(v, t1, t2, t3, 4) + piece(v, t1, t2, t3, 4));
    assert(build(v, t1, t2, t3, 6) == build(v, t1, t2, t3, 5) + piece(v, t1, t2, t3, 5));
    assert(build(v, t1, t2, t3, 7) == build(v, t1, t2, t3, 6) + piece(v, t1, t2, t3, 6));
    assert(build(v, t1, t2, t3, 8) == build(v, t1, t2, t3, 7) + piece(v, t1, t2, t3, 7));
    assert(build(v, t1, t2, t3, 9) == build(v, t1, t2, t3, 8) + piece(v, t1, t2, t3, 8));
    assert(build(v, t1, t2, t3, 10) == build(v, t1, t2, t3, 9) + piece(v, t1, t2, t3, 9));
    assert(build(v, t1, t2, t3, 11) == build(v, t1, t2, t3, 10) + piece(v, t1, t2, t3, 10));
    assert(build(v, t1, t2, t3, 12) == build(v, t1, t2, t3, 11) + piece(v, t1, t2, t3, 11));
    assert(build(v, t1, t2, t3, 13) == build(v, t1, t2, t3, 12) + piece(v, t1, t2, t3, 12));
    assert(build(v, t1, t2, t3, 14) == build(v, t1, t2, t3, 13) + piece(v, t1, t2, t3, 13));
    assert(build(v, t1, t2, t3, 15) == build(v, t1, t2, t3, 14) + piece(v, t1, t2, t3, 14));
    assert(build(v, t1, t2, t3, 16) == build(v, t1, t2, t3, 15) + piece(v, t1, t2, t3, 15));
    assert(build(v, t1, t2, t3, 17) == build(v, t1, t2, t3, 16) + piece(v, t1, t2, t3, 16));
    assert(build(v, t1, t2, t3, 18) == build(v, t1, t2, t3, 17) + piece(v, t1, t2, t3, 17));
    assert(build(v, t1, t2, t3, 19) == build(v, t1, t2, t3, 18) + piece(v, t1, t2, t3, 18));
    assert(build(v, t1, t2, t3, 20) == build(v, t1, t2, t3, 19) + piece(v, t1, t2, t3, 19));
    assert(build(v, t1, t2, t3, 21) == build(v, t1, t2, t3, 20) + piece(v, t1, t2, t3, 20));
    assert(build(v, t1, t2, t3, 22) == build(v, t1, t2, t3, 21) + piece(v, t1, t2, t3, 21));
    assert(build(v, t1, t2, t3, 23) == build(v, t1, t2, t3, 22) + piece(v, t1, t2, t3, 22));
    assert(build(v, t1, t2, t3, 23) == head() + encode_utf8(v.uid) + type_open() + encode_utf8(v.event_type) + how_open() + encode_utf8(v.how) + time_open() + encode_utf8(t1) + start_open() + encode_utf8(t2) + stale_open() + encode_utf8(t3) + lat_open() + fixed_text(v.point.lat as int) + lon_open() + fixed_text(v.point.lon as int) + hae_open() + fixed_text(v.point.hae as int) + ce_open() + fixed_text(v.point.ce as int) + le_open() + fixed_text(v.point.le as int) + point_close());
}

#[verifier::rlimit(100)]
#[verifier::spinoff_prover]
proof fn lemma_layout(v: CotView, t1: Seq<char>, t2: Seq<char>, t3: Seq<char>)
    ensures
        laid_out(v, t1, t2, t3),
{
    let h = xml_with_times(v, t1, t2, t3);
    let b = build(v, t1, t2, t3, 23);
    lemma_built(v, t1, t2, t3);
    lemma_build(v, t1, t2, t3, 23);
    crate::scan::lemma_front3(b, detail_part(v.detail), event_close());
    assert forall|k: int| 0 <= k < 23 implies h.subrange(off(v, t1, t2, t3, k), off(v, t1, t2, t3, k + 1))
        == #[trigger] piece(v, t1, t2, t3, k) by {
        assert(off(v, t1, t2, t3, k + 1) <= off(v, t1, t2, t3, 23));
        assert(h.subrange(off(v, t1, t2, t3, k), off(v, t1, t2, t3, k + 1)) =~= b.subrange(
            off(v, t1, t2, t3, k),
            off(v, t1, t2, t3, k + 1),
        ));
    }
    assert(h.subrange(off(v, t1, t2, t3, 0), off(v, t1, t2, t3, 1)) == piece(v, t1, t2, t3, 0));
    assert(h.subrange(off(v, t1, t2, t3, 1), off(v, t1, t2, t3, 2)) == piece(v, t1, t2, t3, 1));
    assert(h.subrange(off(v, t1, t2, t3, 2), off(v, t1, t2, t3, 3)) == piece(v, t1, t2, t3, 2));
    assert(h.subrange(off(v, t1, t2, t3, 3), off(v, t1, t2, t3, 4)) == piece(v, t1, t2, t3, 3));
    assert(h.subrange(off(v, t1, t2, t3, 4), off(v, t1, t2, t3, 5)) == piece(v, t1, t2, t3, 4));
    assert(h.subrange(off(v, t1, t2, t3, 5), off(v, t1, t2, t3, 6)) == piece(v, t1, t2, t3, 5));
    assert(h.subrange(off(v, t1, t2, t3, 6), off(v, t1, t2, t3, 7)) == piece(v, t1, t2, t3, 6));
    assert(h.subrange(off(v, t1, t2, t3, 7), off(v, t1, t2, t3, 8)) == piece(v, t1, t2, t3, 7));
    assert(h.subrange(off(v, t1, t2, t3, 8), off(v, t1, t2, t3, 9)) == piece(v, t1, t2, t3, 8));
    assert(h.subrange(off(v, t1, t2, t3, 9), off(v, t1, t2, t3, 10)) == piece(v, t1, t2, t3, 9));
    assert(h.subrange(off(v, t1, t2, t3, 10), off(v, t1, t2, t3, 11)) == piece(v, t1, t2, t3, 10));
    assert(h.subrange(off(v, t1, t2, t3, 11), off(v, t1, t2, t3, 12)) == piece(v, t1, t2, t3, 11));
    assert(h.subrange(off(v, t1, t2, t3, 12), off(v, t1, t2, t3, 13)) == piece(v, t1, t2, t3, 12));
    assert(h.subrange(off(v, t1, t2, t3, 13), off(v, t1, t2, t3, 14)) == piece(v, t1, t2, t3, 13));
    assert(h.subrange(off(v, t1, t2, t3, 14), off(v, t1, t2, t3, 15)) == piece(v, t1, t2, t3, 14));
    assert(h.subrange(off(v, t1, t2, t3, 15), off(v, t1, t2, t3, 16)) == piece(v, t1, t2, t3, 15));
    assert(h.subrange(off(v, t1, t2, t3, 16), off(v, t1, t2, t3, 17)) == piece(v, t1, t2, t3, 16));
    assert(h.subrange(off(v, t1, t2, t3, 17), off(v, t1, t2, t3, 18)) == piece(v, t1, t2, t3, 17));
    assert(h.subrange(off(v, t1, t2, t3, 18), off(v, t1, t2, t3, 19)) == piece(v, t1, t2, t3, 18));
    assert(h.subrange(off(v, t1, t2, t3, 19), off(v, t1, t2, t3, 20)) == piece(v, t1, t2, t3, 19));
    assert(h.subrange(off(v, t1, t2, t3, 20), off(v, t1, t2, t3, 21)) == piece(v, t1, t2, t3, 20));
    assert(h.subrange(off(v, t1, t2, t3, 21), off(v, t1, t2, t3, 22)) == piece(v, t1, t2, t3, 21));
    assert(h.subrange(off(v, t1, t2, t3, 22), off(v, t1, t2, t3, 23)) == piece(v, t1, t2, t3, 22));
}

#[verifier::rlimit(100)]
#[verifier::spinoff_prover]
proof fn lemma_attr_uid(v: CotView, t1: Seq<char>, t2: Seq<char>, t3: Seq<char>)
    requires
        laid_out(v, t1, t2, t3),
        attr_text_ok(v.uid),
        attr_text_ok(v.event_type),
        attr_text_ok(v.how),
        forall|i: int| 0 <= i < t1.len() ==> is_time_char(#[trigger] t1[i]),
        forall|i: int| 0 <= i < t2.len() ==> is_time_char(#[trigger] t2[i]),
        forall|i: int| 0 <= i < t3.len() ==> is_time_char(#[trigger] t3[i]),
    ensures
        attribute_value(xml_with_times(v, t1, t2, t3), name_uid()) == Some(piece(v, t1, t2, t3, 1)),
{
    let h = xml_with_times(v, t1, t2, t3);
    let p = attr_pattern(name_uid());
    assert(p =~= name_uid() + seq![61u8, 34u8]);
    assert(piece(v, t1, t2, t3, 0) == head());
    lemma_free_upto(head(), p, 59);
    assert(head().subrange(59, 59 + p.len() as int) =~= p);
    lemma_found_in_literal(h, p, off(v, t1, t2, t3, 0), head(), 59);
    assert(piece(v, t1, t2, t3, 1) == encode_utf8(v.uid));
    assert(type_open()[0] == 34u8);
    assert(h[off(v, t1, t2, t3, 2)] == h.subrange(off(v, t1, t2, t3, 2), off(v, t1, t2, t3, 3))[0]);
    lemma_quote_after(h, off(v, t1, t2, t3, 1), encode_utf8(v.uid));
}

#[verifier::rlimit(100)]
#[verifier::spinoff_prover]
proof fn lemma_attr_type(v: CotView, t1: Seq<char>, t2: Seq<char>, t3: Seq<char>)
    requires
        laid_out(v, t1, t2, t3),
        attr_text_ok(v.uid),
        attr_text_ok(v.event_type),
        attr_text_ok(v.how),
        forall|i: int| 0 <= i < t1.len() ==> is_time_char(#[trigger] t1[i]),
        forall|i: int| 0 <= i < t2.len() ==> is_time_char(#[trigger] t2[i]),
        forall|i: int| 0 <= i < t3.len() ==> is_time_char(#[trigger] t3[i]),
    ensures
        attribute_value(xml_with_times(v, t1, t2, t3), name_type()) == Some(piece(v, t1, t2, t3, 3)),
{
    let h = xml_with_times(v, t1, t2, t3);
    let p = attr_pattern(name_type());
    assert(p =~= name_type() + seq![61u8, 34u8]);
    assert(piece(v, t1, t2, t3, 0) == head());
    lemma_free(head(), p);
    lemma_scan_literal(h, p, 0, off(v, t1, t2, t3, 0), head());
    assert(piece(v, t1, t2, t3, 1) == encode_utf8(v.uid));
    assert(type_open()[0] == 34u8);
    assert(h[off(v, t1, t2, t3, 2)] == h.subrange(off(v, t1, t2, t3, 2), off(v, t1, t2, t3, 3))[0]);
    lemma_scan_value_attr(h, p, 0, off(v, t1, t2, t3, 1), encode_utf8(v.uid));
    assert(piece(v, t1, t2, t3, 2) == type_open());
    lemma_free_upto(type_open(), p, 2);
    assert(type_open().subrange(2, 2 + p.len() as int) =~= p);
    lemma_found_in_literal(h, p, off(v, t1, t2, t3, 2), type_open(), 2);
    assert(piece(v, t1, t2, t3, 3) == encode_utf8(v.event_type));
    assert(how_open()[0] == 34u8);
    assert(h[off(v, t1, t2, t3, 4)] == h.subrange(off(v, t1, t2, t3, 4), off(v, t1, t2, t3, 5))[0]);
    lemma_quote_after(h, off(v, t1, t2, t3, 3), encode_utf8(v.event_type));
}

#[verifier::rlimit(100)]
#[verifier::spinoff_prover]
proof fn lemma_attr_how(v: CotView, t1: Seq<char>, t2: Seq<char>, t3: Seq<char>)
    requires
        laid_out(v, t1, t2, t3),
        attr_text_ok(v.uid),
        attr_text_ok(v.event_type),
        attr_text_ok(v.how),
        forall|i: int| 0 <= i < t1.len() ==> is_time_char(#[trigger] t1[i]),
        forall|i: int| 0 <= i < t2.len() ==> is_time_char(#[trigger] t2[i]),
        forall|i: int| 0 <= i < t3.len() ==> is_time_char(#[trigger] t3[i]),
    ensures
        attribute_value(xml_with_times(v, t1, t2, t3), name_how()) == Some(piece(v, t1, t2, t3, 5)),
{
    let h = xml_with_times(v, t1, t2, t3);
    let p = attr_pattern(name_how());
    assert(p =~= name_how() + seq![61u8, 34u8]);
    assert(piece(v, t1, t2, t3, 0) == head());
    lemma_free(head(), p);
    lemma_scan_literal(h, p, 0, off(v, t1, t2, t3, 0), head());
    assert(piece(v, t1, t2, t3, 1) == encode_utf8(v.uid));
    assert(type_open()[0] == 34u8);
    assert(h[off(v, t1, t2, t3, 2)] == h.subrange(off(v, t1, t2, t3, 2), off(v, t1, t2, t3, 3))[0]);
    lemma_scan_value_attr(h, p, 0, off(v, t1, t2, t3, 1), encode_utf8(v.uid));
    assert(piece(v, t1, t2, t3, 2) == type_open());
    lemma_free(type_open(), p);
    lemma_scan_literal(h, p, 0, off(v, t1, t2, t3, 2), type_open());
    assert(piece(v, t1, t2, t3, 3) == encode_utf8(v.event_type));
    assert(how_open()[0] == 34u8);
    assert(h[off(v, t1, t2, t3, 4)] == h.subrange(off(v, t1, t2, t3, 4), off(v, t1, t2, t3, 5))[0]);
    lemma_scan_value_attr(h, p, 0, off(v, t1, t2, t3, 3), encode_utf8(v.event_type));
    assert(piece(v, t1, t2, t3, 4) == how_open());
    lemma_free_upto(how_open(), p, 2);
    assert(how_open().subrange(2, 2 + p.len() as int) =~= p);
    lemma_found_in_literal(h, p, off(v, t1, t2, t3, 4), how_open(), 2);
    assert(piece(v, t1, t2, t3, 5) == encode_utf8(v.how));
    assert(time_open()[0] == 34u8);
    assert(h[off(v, t1, t2, t3, 6)] == h.subrange(off(v, t1, t2, t3, 6), off(v, t1, t2, t3, 7))[0]);
    lemma_quote_after(h, off(v, t1, t2, t3, 5), encode_utf8(v.how));
}

#[verifier::rlimit(100)]
#[verifier::spinoff_prover]
proof fn lemma_attr_time(v: CotView, t1: Seq<char>, t2: Seq<char>, t3: Seq<char>)
    requires
        laid_out(v, t1, t2, t3),
        attr_text_ok(v.uid),
        attr_text_ok(v.event_type),
        attr_text_ok(v.how),
        forall|i: int| 0 <= i < t1.len() ==> is_time_char(#[trigger] t1[i]),
        forall|i: int| 0 <= i < t2.len() ==> is_time_char(#[trigger] t2[i]),
        forall|i: int| 0 <= i < t3.len() ==> is_time_char(#[trigger] t3[i]),
    ensures
        attribute_value(xml_with_times(v, t1, t2, t3), name_time()) == Some(piece(v, t1, t2, t3, 7)),
{
    let h = xml_with_times(v, t1, t2, t3);
    let p = attr_pattern(name_time());
    assert(p =~= name_time() + seq![61u8, 34u8]);
    assert(piece(v, t1, t2, t3, 0) == head());
    lemma_free(head(), p);
    lemma_scan_literal(h, p, 0, off(v, t1, t2, t3, 0), head());
    assert(piece(v, t1, t2, t3, 1) == encode_utf8(v.uid));
    assert(type_open()[0] == 34u8);
    assert(h[off(v, t1, t2, t3, 2)] == h.subrange(off(v, t1, t2, t3, 2), off(v, t1, t2, t3, 3))[0]);
    lemma_scan_value_attr(h, p, 0, off(v, t1, t2, t3, 1), encode_utf8(v.uid));
    assert(piece(v, t1, t2, t3, 2) == type_open());
    lemma_free(type_open(), p);
    lemma_scan_literal(h, p, 0, off(v, t1, t2, t3, 2), type_open());
    assert(piece(v, t1, t2, t3, 3) == encode_utf8(v.event_type));
    assert(how_open()[0] == 34u8);
    assert(h[off(v, t1, t2, t3, 4)] == h.subrange(off(v, t1, t2, t3, 4), off(v, t1, t2, t3, 5))[0]);
    lemma_scan_value_attr(h, p, 0, off(v, t1, t2, t3, 3), encode_utf8(v.event_type));
    assert(piece(v, t1, t2, t3, 4) == how_open());
    lemma_free(how_open(), p);
    lemma_scan_literal(h, p, 0, off(v, t1, t2, t3, 4), how_open());
    assert(piece(v, t1, t2, t3, 5) == encode_utf8(v.how));
    assert(time_open()[0] == 34u8);
    assert(h[off(v, t1, t2, t3, 6)] == h.subrange(off(v, t1, t2, t3, 6), off(v, t1, t2, t3, 7))[0]);
    lemma_scan_value_attr(h, p, 0, off(v, t1, t2, t3, 5), encode_utf8(v.how));
    assert(piece(v, t1, t2, t3, 6) == time_open());
    lemma_free_upto(time_open(), p, 2);
    assert(time_open().subrange(2, 2 + p.len() as int) =~= p);
    lemma_found_in_literal(h, p, off(v, t1, t2, t3, 6), time_open(), 2);
    lemma_time_bytes(t1);
    assert(piece(v, t1, t2, t3, 7) == encode_utf8(t1));
    assert(start_open()[0] == 34u8);
    assert(h[off(v, t1, t2, t3, 8)] == h.subrange(off(v, t1, t2, t3, 8), off(v, t1, t2, t3, 9))[0]);
    lemma_quote_after(h, off(v, t1, t2, t3, 7), encode_utf8(t1));
}

#[verifier::rlimit(100)]
#[verifier::spinoff_prover]
proof fn lemma_attr_start(v: CotView, t1: Seq<char>, t2: Seq<char>, t3: Seq<char>)
    requires
        laid_out(v, t1, t2, t3),
        attr_text_ok(v.uid),
        attr_text_ok(v.event_type),
        attr_text_ok(v.how),
        forall|i: int| 0 <= i < t1.len() ==> is_time_char(#[trigger] t1[i]),
        forall|i: int| 0 <= i < t2.len() ==> is_time_char(#[trigger] t2[i]),
        forall|i: int| 0 <= i < t3.len() ==> is_time_char(#[trigger] t3[i]),
    ensures
        attribute_value(xml_with_times(v, t1, t2, t3), name_start()) == Some(piece(v, t1, t2, t3, 9)),
{
    let h = xml_with_times(v, t1, t2, t3);
    let p = attr_pattern(name_start());
    assert(p =~= name_start() + seq![61u8, 34u8]);
    assert(piece(v, t1, t2, t3, 0) == head());
    lemma_free(head(), p);
    lemma_scan_literal(h, p, 0, off(v, t1, t2, t3, 0), head());
    assert(piece(v, t1, t2, t3, 1) == encode_utf8(v.uid));
    assert(type_open()[0] == 34u8);
    assert(h[off(v, t1, t2, t3, 2)] == h.subrange(off(v, t1, t2, t3, 2), off(v, t1, t2, t3, 3))[0]);
    lemma_scan_value_attr(h, p, 0, off(v, t1, t2, t3, 1), encode_utf8(v.uid));
    assert(piece(v, t1, t2, t3, 2) == type_open());
    lemma_free(type_open(), p);
    lemma_scan_literal(h, p, 0, off(v, t1, t2, t3, 2), type_open());
    assert(piece(v, t1, t2, t3, 3) == encode_utf8(v.event_type));
    assert(how_open()[0] == 34u8);
    assert(h[off(v, t1, t2, t3, 4)] == h.subrange(off(v, t1, t2, t3, 4), off(v, t1, t2, t3, 5))[0]);
    lemma_scan_value_attr(h, p, 0, off(v, t1, t2, t3, 3), encode_utf8(v.event_type));
    assert(piece(v, t1, t2, t3, 4) == how_open());
    lemma_free(how_open(), p);
    lemma_scan_literal(h, p, 0, off(v, t1, t2, t3, 4), how_open());
    assert(piece(v, t1, t2, t3, 5) == encode_utf8(v.how));
    assert(time_open()[0] == 34u8);
    assert(h[off(v, t1, t2, t3, 6)] == h.subrange(off(v, t1, t2, t3, 6), off(v, t1, t2, t3, 7))[0]);
    lemma_scan_value_attr(h, p, 0, off(v, t1, t2, t3, 5), encode_utf8(v.how));
    assert(piece(v, t1, t2, t3, 6) == time_open());
    lemma_free(time_open(), p);
    lemma_scan_literal(h, p, 0, off(v, t1, t2, t3, 6), time_open());
    assert(piece(v, t1, t2, t3, 7) == encode_utf8(t1));
    lemma_time_bytes(t1);
    assert(start_open()[0] == 34u8);
    assert(h[off(v, t1, t2, t3, 8)] == h.subrange(off(v, t1, t2, t3, 8), off(v, t1, t2, t3, 9))[0]);
    lemma_scan_value_attr(h, p, 0, off(v, t1, t2, t3, 7), encode_utf8(t1));
    assert(piece(v, t1, t2, t3, 8) == start_open());
    lemma_free_upto(start_open(), p, 2);
    assert(start_open().subrange(2, 2 + p.len() as int) =~= p);
    lemma_found_in_literal(h, p, off(v, t1, t2, t3, 8), start_open(), 2);
    lemma_time_bytes(t2);
    assert(piece(v, t1, t2, t3, 9) == encode_utf8(t2));
    assert(stale_open()[0] == 34u8);
    assert(h[off(v, t1, t2, t3, 10)] == h.subrange(off(v, t1, t2, t3, 10), off(v, t1, t2, t3, 11))[0]);
    lemma_quote_after(h, off(v, t1, t2, t3, 9), encode_utf8(t2));
}

#[verifier::rlimit(100)]
#[verifier::spinoff_prover]
proof fn lemma_attr_stale(v: CotView, t1: Seq<char>, t2: Seq<char>, t3: Seq<char>)
    requires
        laid_out(v, t1, t2, t3),
        attr_text_ok(v.uid),
        attr_text_ok(v.event_type),
        attr_text_ok(v.how),
        forall|i: int| 0 <= i < t1.len() ==> is_time_char(#[trigger] t1[i]),
        forall|i: int| 0 <= i < t2.len() ==> is_time_char(#[trigger] t2[i]),
        forall|i: int| 0 <= i < t3.len() ==> is_time_char(#[trigger] t3[i]),
    ensures
        attribute_value(xml_with_times(v, t1, t2, t3), name_stale()) == Some(piece(v, t1, t2, t3, 11)),
{
    let h = xml_with_times(v, t1, t2, t3);
    let p = attr_pattern(name_stale());
    assert(p =~= name_stale() + seq![61u8, 34u8]);
    assert(piece(v, t1, t2, t3, 0) == head());
    lemma_free(head(), p);
    lemma_scan_literal(h, p, 0, off(v, t1, t2, t3, 0), head());
    assert(piece(v, t1, t2, t3, 1) == encode_utf8(v.uid));
    assert(type_open()[0] == 34u8);
    assert(h[off(v, t1, t2, t3, 2)] == h.subrange(off(v, t1, t2, t3, 2), off(v, t1, t2, t3, 3))[0]);
    lemma_scan_value_attr(h, p, 0, off(v, t1, t2, t3, 1), encode_utf8(v.uid));
    assert(piece(v, t1, t2, t3, 2) == type_open());
    lemma_free(type_open(), p);
    lemma_scan_literal(h, p, 0, off(v, t1, t2, t3, 2), type_open());
    assert(piece(v, t1, t2, t3, 3) == encode_utf8(v.event_type));
    assert(how_open()[0] == 34u8);
    assert(h[off(v, t1, t2, t3, 4)] == h.subrange(off(v, t1, t2, t3, 4), off(v, t1, t2, t3, 5))[0]);
    lemma_scan_value_attr(h, p, 0, off(v, t1, t2, t3, 3), encode_utf8(v.event_type));
    assert(piece(v, t1, t2, t3, 4) == how_open());
    lemma_free(how_open(), p);
    lemma_scan_literal(h, p, 0, off(v, t1, t2, t3, 4), how_open());
    assert(piece(v, t1, t2, t3, 5) == encode_utf8(v.how));
    assert(time_open()[0] == 34u8);
    assert(h[off(v, t1, t2, t3, 6)] == h.subrange(off(v, t1, t2, t3, 6), off(v, t1, t2, t3, 7))[0]);
    lemma_scan_value_attr(h, p, 0, off(v, t1, t2, t3, 5), encode_utf8(v.how));
    assert(piece(v, t1, t2, t3, 6) == time_open());
    lemma_free(time_open(), p);
    lemma_scan_literal(h, p, 0, off(v, t1, t2, t3, 6), time_open());
    assert(piece(v, t1, t2, t3, 7) == encode_utf8(t1));
    lemma_time_bytes(t1);
    assert(start_open()[0] == 34u8);
    assert(h[off(v, t1, t2, t3, 8)] == h.subrange(off(v, t1, t2, t3, 8), off(v, t1, t2, t3, 9))[0]);
    lemma_scan_value_attr(h, p, 0, off(v, t1, t2, t3, 7), encode_utf8(t1));
    assert(piece(v, t1, t2, t3, 8) == start_open());
    lemma_free(start_open(), p);
    lemma_scan_literal(h, p, 0, off(v, t1, t2, t3, 8), start_open());
    assert(piece(v, t1, t2, t3, 9) == encode_utf8(t2));
    lemma_time_bytes(t2);
    assert(stale_open()[0] == 34u8);
    assert(h[off(v, t1, t2, t3, 10)] == h.subrange(off(v, t1, t2, t3, 10), off(v, t1, t2, t3, 11))[0]);
    lemma_scan_value_attr(h, p, 0, off(v, t1, t2, t3, 9), encode_utf8(t2));
    assert(piece(v, t1, t2, t3, 10) == stale_open());
    lemma_free_upto(stale_open(), p, 2);
    assert(stale_open().subrange(2, 2 + p.len() as int) =~= p);
    lemma_found_in_literal(h, p, off(v, t1, t2, t3, 10), stale_open(), 2);
    lemma_time_bytes(t3);
    assert(piece(v, t1, t2, t3, 11) == encode_utf8(t3));
    assert(lat_open()[0] == 34u8);
    assert(h[off(v, t1, t2, t3, 12)] == h.subrange(off(v, t1, t2, t3, 12), off(v, t1, t2, t3, 13))[0]);
    lemma_quote_after(h, off(v, t1, t2, t3, 11), encode_utf8(t3));
}

#[verifier::rlimit(100)]
#[verifier::spinoff_prover]
proof fn lemma_point_start(v: CotView, t1: Seq<char>, t2: Seq<char>, t3: Seq<char>)
    requires
        laid_out(v, t1, t2, t3),
        attr_text_ok(v.uid),
        attr_text_ok(v.event_type),
        attr_text_ok(v.how),
        forall|i: int| 0 <= i < t1.len() ==> is_time_char(#[trigger] t1[i]),
        forall|i: int| 0 <= i < t2.len() ==> is_time_char(#[trigger] t2[i]),
        forall|i: int| 0 <= i < t3.len() ==> is_time_char(#[trigger] t3[i]),
    ensures
        find(xml_with_times(v, t1, t2, t3), point_tag()) == Some(off(v, t1, t2, t3, 12) + 2),
{
    let h = xml_with_times(v, t1, t2, t3);
    assert(piece(v, t1, t2, t3, 0) == head());
    lemma_free(head(), point_tag());
    lemma_scan_literal(h, point_tag(), 0, off(v, t1, t2, t3, 0), head());
    assert(piece(v, t1, t2, t3, 1) == encode_utf8(v.uid));
    lemma_scan_value_first(h, point_tag(), 0, off(v, t1, t2, t3, 1), encode_utf8(v.uid));
    assert(piece(v, t1, t2, t3, 2) == type_open());
    lemma_free(type_open(), point_tag());
    lemma_scan_literal(h, point_tag(), 0, off(v, t1, t2, t3, 2), type_open());
    assert(piece(v, t1, t2, t3, 3) == encode_utf8(v.event_type));
    lemma_scan_value_first(h, point_tag(), 0, off(v, t1, t2, t3, 3), encode_utf8(v.event_type));
    assert(piece(v, t1, t2, t3, 4) == how_open());
    lemma_free(how_open(), point_tag());
    lemma_scan_literal(h, point_tag(), 0, off(v, t1, t2, t3, 4), how_open());
    assert(piece(v, t1, t2, t3, 5) == encode_utf8(v.how));
    lemma_scan_value_first(h, point_tag(), 0, off(v, t1, t2, t3, 5), encode_utf8(v.how));
    assert(piece(v, t1, t2, t3, 6) == time_open());
    lemma_free(time_open(), point_tag());
    lemma_scan_literal(h, point_tag(), 0, off(v, t1, t2, t3, 6), time_open());
    assert(piece(v, t1, t2, t3, 7) == encode_utf8(t1));
    lemma_time_bytes(t1);
    lemma_scan_value_first(h, point_tag(), 0, off(v, t1, t2, t3, 7), encode_utf8(t1));
    assert(piece(v, t1, t2, t3, 8) == start_open());
    lemma_free(start_open(), point_tag());
    lemma_scan_literal(h, point_tag(), 0, off(v, t1, t2, t3, 8), start_open());
    assert(piece(v, t1, t2, t3, 9) == encode_utf8(t2));
    lemma_time_bytes(t2);
    lemma_scan_value_first(h, point_tag(), 0, off(v, t1, t2, t3, 9), encode_utf8(t2));
    assert(piece(v, t1, t2, t3, 10) == stale_open());
    lemma_free(stale_open(), point_tag());
    lemma_scan_literal(h, point_tag(), 0, off(v, t1, t2, t3, 10), stale_open());
    assert(piece(v, t1, t2, t3, 11) == encode_utf8(t3));
    lemma_time_bytes(t3);
    lemma_scan_value_first(h, point_tag(), 0, off(v, t1, t2, t3, 11), encode_utf8(t3));
    assert(piece(v, t1, t2, t3, 12) == lat_open());
    lemma_free_upto(lat_open(), point_tag(), 2);
    assert(lat_open().subrange(2, 8) =~= point_tag());
    lemma_found_in_literal(h, point_tag(), off(v, t1, t2, t3, 12), lat_open(), 2);
}

#[verifier::rlimit(100)]
#[verifier::spinoff_prover]
proof fn lemma_point_end(v: CotView, t1: Seq<char>, t2: Seq<char>, t3: Seq<char>)
    requires
        laid_out(v, t1, t2, t3),
        attr_text_ok(v.uid),
        attr_text_ok(v.event_type),
        attr_text_ok(v.how),
        forall|i: int| 0 <= i < t1.len() ==> is_time_char(#[trigger] t1[i]),
        forall|i: int| 0 <= i < t2.len() ==> is_time_char(#[trigger] t2[i]),
        forall|i: int| 0 <= i < t3.len() ==> is_time_char(#[trigger] t3[i]),
    ensures
        find_from(xml_with_times(v, t1, t2, t3), tag_end(), off(v, t1, t2, t3, 12) + 2) == Some(off(v, t1, t2, t3, 22) + 1),
{
    let h = xml_with_times(v, t1, t2, t3);
    let ps = off(v, t1, t2, t3, 12) + 2;
    let q0 = lat_open().subrange(2, 14);
    assert(piece(v, t1, t2, t3, 12) == lat_open());
    assert(h.subrange(ps, off(v, t1, t2, t3, 13)) =~= q0) by {
        assert(h.subrange(off(v, t1, t2, t3, 12), off(v, t1, t2, t3, 13)) == lat_open());
        assert(h.subrange(ps, off(v, t1, t2, t3, 13)) =~= h.subrange(off(v, t1, t2, t3, 12), off(v, t1, t2, t3, 13)).subrange(2, 14));
    }
    lemma_free(q0, tag_end());
    lemma_scan_literal(h, tag_end(), ps, ps, q0);
    assert(piece(v, t1, t2, t3, 13) == fixed_text(v.point.lat as int));
    lemma_number_bytes(v.point.lat as int);
    lemma_scan_value_first(h, tag_end(), ps, off(v, t1, t2, t3, 13), fixed_text(v.point.lat as int));
    assert(piece(v, t1, t2, t3, 14) == lon_open());
    lemma_free(lon_open(), tag_end());
    lemma_scan_literal(h, tag_end(), ps, off(v, t1, t2, t3, 14), lon_open());
    assert(piece(v, t1, t2, t3, 15) == fixed_text(v.point.lon as int));
    lemma_number_bytes(v.point.lon as int);
    lemma_scan_value_first(h, tag_end(), ps, off(v, t1, t2, t3, 15), fixed_text(v.point.lon as int));
    assert(piece(v, t1, t2, t3, 16) == hae_open());
    lemma_free(hae_open(), tag_end());
    lemma_scan_literal(h, tag_end(), ps, off(v, t1, t2, t3, 16), hae_open());
    assert(piece(v, t1, t2, t3, 17) == fixed_text(v.point.hae as int));
    lemma_number_bytes(v.point.hae as int);
    lemma_scan_value_first(h, tag_end(), ps, off(v, t1, t2, t3, 17), fixed_text(v.point.hae as int));
    assert(piece(v, t1, t2, t3, 18) == ce_open());
    lemma_free(ce_open(), tag_end());
    lemma_scan_literal(h, tag_end(), ps, off(v, t1, t2, t3, 18), ce_open());
    assert(piece(v, t1, t2, t3, 19) == fixed_text(v.point.ce as int));
    lemma_number_bytes(v.point.ce as int);
    lemma_scan_value_first(h, tag_end(), ps, off(v, t1, t2, t3, 19), fixed_text(v.point.ce as int));
    assert(piece(v, t1, t2, t3, 20) == le_open());
    lemma_free(le_open(), tag_end());
    lemma_scan_literal(h, tag_end(), ps, off(v, t1, t2, t3, 20), le_open());
    assert(piece(v, t1, t2, t3, 21) == fixed_text(v.point.le as int));
    lemma_number_bytes(v.point.le as int);
    lemma_scan_value_first(h, tag_end(), ps, off(v, t1, t2, t3, 21), fixed_text(v.point.le as int));
    assert(piece(v, t1, t2, t3, 22) == point_close());
    lemma_free_upto(point_close(), tag_end(), 1);
    assert(point_close().subrange(1, 3) =~= tag_end());
    lemma_found_from(h, tag_end(), ps, off(v, t1, t2, t3, 22), point_close(), 1);
}

/// The point element of the document of `v`, up to its closing quote.
pub open spec fn section(v: CotView, t1: Seq<char>, t2: Seq<char>, t3: Seq<char>) -> Seq<u8> {
    xml_with_times(v, t1, t2, t3).subrange(off(v, t1, t2, t3, 12) + 2, off(v, t1, t2, t3, 22) + 1)
}

/// Each piece of the point element stands at its place in it.
pub open spec fn sec_laid_out(v: CotView, t1: Seq<char>, t2: Seq<char>, t3: Seq<char>) -> bool {
    let s = section(v, t1, t2, t3);
    let ps = off(v, t1, t2, t3, 12) + 2;
    &&& s.subrange(0, off(v, t1, t2, t3, 13) - ps) == lat_open().subrange(2, 14)
    &&& s.subrange(off(v, t1, t2, t3, 13) - ps, off(v, t1, t2, t3, 14) - ps) == piece(v, t1, t2, t3, 13)
    &&& s.subrange(off(v, t1, t2, t3, 14) - ps, off(v, t1, t2, t3, 15) - ps) == piece(v, t1, t2, t3, 14)
    &&& s.subrange(off(v, t1, t2, t3, 15) - ps, off(v, t1, t2, t3, 16) - ps) == piece(v, t1, t2, t3, 15)
    &&& s.subrange(off(v, t1, t2, t3, 16) - ps, off(v, t1, t2, t3, 17) - ps) == piece(v, t1, t2, t3, 16)
    &&& s.subrange(off(v, t1, t2, t3, 17) - ps, off(v, t1, t2, t3, 18) - ps) == piece(v, t1, t2, t3, 17)
    &&& s.subrange(off(v, t1, t2, t3, 18) - ps, off(v, t1, t2, t3, 19) - ps) == piece(v, t1, t2, t3, 18)
    &&& s.subrange(off(v, t1, t2, t3, 19) - ps, off(v, t1, t2, t3, 20) - ps) == piece(v, t1, t2, t3, 19)
    &&& s.subrange(off(v, t1, t2, t3, 20) - ps, off(v, t1, t2, t3, 21) - ps) == piece(v, t1, t2, t3, 20)
    &&& s.subrange(off(v, t1, t2, t3, 21) - ps, off(v, t1, t2, t3, 22) - ps) == piece(v, t1, t2, t3, 21)
    &&& s.len() == off(v, t1, t2, t3, 22) + 1 - ps
    &&& s[off(v, t1, t2, t3, 22) - ps] == 34u8
}

#[verifier::rlimit(100)]
#[verifier::spinoff_prover]
proof fn lemma_sec_layout(v: CotView, t1: Seq<char>, t2: Seq<char>, t3: Seq<char>)
    requires
        laid_out(v, t1, t2, t3),
    ensures
        sec_laid_out(v, t1, t2, t3),
{
    let h = xml_with_times(v, t1, t2, t3);
    let s = section(v, t1, t2, t3);
    let ps = off(v, t1, t2, t3, 12) + 2;
    assert(piece(v, t1, t2, t3, 12) == lat_open());
    assert(piece(v, t1, t2, t3, 13) == fixed_text(v.point.lat as int));
    assert(piece(v, t1, t2, t3, 14) == lon_open());
    assert(piece(v, t1, t2, t3, 15) == fixed_text(v.point.lon as int));
    assert(piece(v, t1, t2, t3, 16) == hae_open());
    assert(piece(v, t1, t2, t3, 17) == fixed_text(v.point.hae as int));
    assert(piece(v, t1, t2, t3, 18) == ce_open());
    assert(piece(v, t1, t2, t3, 19) == fixed_text(v.point.ce as int));
    assert(piece(v, t1, t2, t3, 20) == le_open());
    assert(piece(v, t1, t2, t3, 21) == fixed_text(v.point.le as int));
    assert(piece(v, t1, t2, t3, 22) == point_close());
    assert(s.subrange(0, off(v, t1, t2, t3, 13) - ps) =~= h.subrange(off(v, t1, t2, t3, 12), off(v, t1, t2, t3, 13)).subrange(2, 14));
    assert(s.subrange(off(v, t1, t2, t3, 13) - ps, off(v, t1, t2, t3, 14) - ps) =~= h.subrange(off(v, t1, t2, t3, 13), off(v, t1, t2, t3, 14)));
    assert(s.subrange(off(v, t1, t2, t3, 14) - ps, off(v, t1, t2, t3, 15) - ps) =~= h.subrange(off(v, t1, t2, t3, 14), off(v, t1, t2, t3, 15)));
    assert(s.subrange(off(v, t1, t2, t3, 15) - ps, off(v, t1, t2, t3, 16) - ps) =~= h.subrange(off(v, t1, t2, t3, 15), off(v, t1, t2, t3, 16)));
    assert(s.subrange(off(v, t1, t2, t3, 16) - ps, off(v, t1, t2, t3, 17) - ps) =~= h.subrange(off(v, t1, t2, t3, 16), off(v, t1, t2, t3, 17)));
    assert(s.subrange(off(v, t1, t2, t3, 17) - ps, off(v, t1, t2, t3, 18) - ps) =~= h.subrange(off(v, t1, t2, t3, 17), off(v, t1, t2, t3, 18)));
    assert(s.subrange(off(v, t1, t2, t3, 18) - ps, off(v, t1, t2, t3, 19) - ps) =~= h.subrange(off(v, t1, t2, t3, 18), off(v, t1, t2, t3, 19)));
    assert(s.subrange(off(v, t1, t2, t3, 19) - ps, off(v, t1, t2, t3, 20) - ps) =~= h.subrange(off(v, t1, t2, t3, 19), off(v, t1, t2, t3, 20)));
    assert(s.subrange(off(v, t1, t2, t3, 20) - ps, off(v, t1, t2, t3, 21) - ps) =~= h.subrange(off(v, t1, t2, t3, 20), off(v, t1, t2, t3, 21)));
    assert(s.subrange(off(v, t1, t2, t3, 21) - ps, off(v, t1, t2, t3, 22) - ps) =~= h.subrange(off(v, t1, t2, t3, 21), off(v, t1, t2, t3, 22)));
    assert(s[off(v, t1, t2, t3, 22) - ps] == h.subrange(off(v, t1, t2, t3, 22), off(v, t1, t2, t3, 23))[0]);
}

#[verifier::rlimit(100)]
#[verifier::spinoff_prover]
proof fn lemma_point_lat(v: CotView, t1: Seq<char>, t2: Seq<char>, t3: Seq<char>)
    requires
        sec_laid_out(v, t1, t2, t3),
    ensures
        attribute_value(section(v, t1, t2, t3), name_lat()) == Some(piece(v, t1, t2, t3, 13)),
{
    let s = section(v, t1, t2, t3);
    let ps = off(v, t1, t2, t3, 12) + 2;
    let p = attr_pattern(name_lat());
    assert(p =~= name_lat() + seq![61u8, 34u8]);
    let q0 = lat_open().subrange(2, 14);
    assert(piece(v, t1, t2, t3, 12) == lat_open());
    lemma_free_upto(q0, p, 7);
    assert(q0.subrange(7, 7 + p.len() as int) =~= p);
    lemma_found_in_literal(s, p, 0, q0, 7);
    lemma_number_bytes(v.point.lat as int);
    assert(piece(v, t1, t2, t3, 13) == fixed_text(v.point.lat as int));
    assert(lon_open()[0] == 34u8);
    assert(s[off(v, t1, t2, t3, 14) - ps] == s.subrange(off(v, t1, t2, t3, 14) - ps, off(v, t1, t2, t3, 15) - ps)[0]);
    lemma_quote_after(s, off(v, t1, t2, t3, 13) - ps, fixed_text(v.point.lat as int));
}

#[verifier::rlimit(100)]
#[verifier::spinoff_prover]
proof fn lemma_point_lon(v: CotView, t1: Seq<char>, t2: Seq<char>, t3: Seq<char>)
    requires
        sec_laid_out(v, t1, t2, t3),
    ensures
        attribute_value(section(v, t1, t2, t3), name_lon()) == Some(piece(v, t1, t2, t3, 15)),
{
    let s = section(v, t1, t2, t3);
    let ps = off(v, t1, t2, t3, 12) + 2;
    let p = attr_pattern(name_lon());
    assert(p =~= name_lon() + seq![61u8, 34u8]);
    let q0 = lat_open().subrange(2, 14);
    assert(piece(v, t1, t2, t3, 12) == lat_open());
    lemma_free(q0, p);
    lemma_scan_literal(s, p, 0, 0, q0);
    assert(piece(v, t1, t2, t3, 13) == fixed_text(v.point.lat as int));
    lemma_number_bytes(v.point.lat as int);
    assert(lon_open()[0] == 34u8);
    assert(s[off(v, t1, t2, t3, 14) - ps] == s.subrange(off(v, t1, t2, t3, 14) - ps, off(v, t1, t2, t3, 15) - ps)[0]);
    lemma_scan_value_attr(s, p, 0, off(v, t1, t2, t3, 13) - ps, fixed_text(v.point.lat as int));
    assert(piece(v, t1, t2, t3, 14) == lon_open());
    lemma_free_upto(lon_open(), p, 2);
    assert(lon_open().subrange(2, 2 + p.len() as int) =~= p);
    lemma_found_in_literal(s, p, off(v, t1, t2, t3, 14) - ps, lon_open(), 2);
    lemma_number_bytes(v.point.lon as int);
    assert(piece(v, t1, t2, t3, 15) == fixed_text(v.point.lon as int));
    assert(hae_open()[0] == 34u8);
    assert(s[off(v, t1, t2, t3, 16) - ps] == s.subrange(off(v, t1, t2, t3, 16) - ps, off(v, t1, t2, t3, 17) - ps)[0]);
    lemma_quote_after(s, off(v, t1, t2, t3, 15) - ps, fixed_text(v.point.lon as int));
}

#[verifier::rlimit(100)]
#[verifier::spinoff_prover]
proof fn lemma_point_hae(v: CotView, t1: Seq<char>, t2: Seq<char>, t3: Seq<char>)
    requires
        sec_laid_out(v, t1, t2, t3),
    ensures
        attribute_value(section(v, t1, t2, t3), name_hae()) == Some(piece(v, t1, t2, t3, 17)),
{
    let s = section(v, t1, t2, t3);
    let ps = off(v, t1, t2, t3, 12) + 2;
    let p = attr_pattern(name_hae());
    assert(p =~= name_hae() + seq![61u8, 34u8]);
    let q0 = lat_open().subrange(2, 14);
    assert(piece(v, t1, t2, t3, 12) == lat_open());
    lemma_free(q0, p);
    lemma_scan_literal(s, p, 0, 0, q0);
    assert(piece(v, t1, t2, t3, 13) == fixed_text(v.point.lat as int));
    lemma_number_bytes(v.point.lat as int);
    assert(lon_open()[0] == 34u8);
    assert(s[off(v, t1, t2, t3, 14) - ps] == s.subrange(off(v, t1, t2, t3, 14) - ps, off(v, t1, t2, t3, 15) - ps)[0]);
    lemma_scan_value_attr(s, p, 0, off(v, t1, t2, t3, 13) - ps, fixed_text(v.point.lat as int));
    assert(piece(v, t1, t2, t3, 14) == lon_open());
    lemma_free(lon_open(), p);
    lemma_scan_literal(s, p, 0, off(v, t1, t2, t3, 14) - ps, lon_open());
    assert(piece(v, t1, t2, t3, 15) == fixed_text(v.point.lon as int));
    lemma_number_bytes(v.point.lon as int);
    assert(hae_open()[0] == 34u8);
    assert(s[off(v, t1, t2, t3, 16) - ps] == s.subrange(off(v, t1, t2, t3, 16) - ps, off(v, t1, t2, t3, 17) - ps)[0]);
    lemma_scan_value_attr(s, p, 0, off(v, t1, t2, t3, 15) - ps, fixed_text(v.point.lon as int));
    assert(piece(v, t1, t2, t3, 16) == hae_open());
    lemma_free_upto(hae_open(), p, 2);
    assert(hae_open().subrange(2, 2 + p.len() as int) =~= p);
    lemma_found_in_literal(s, p, off(v, t1, t2, t3, 16) - ps, hae_open(), 2);
    lemma_number_bytes(v.point.hae as int);
    assert(piece(v, t1, t2, t3, 17) == fixed_text(v.point.hae as int));
    assert(ce_open()[0] == 34u8);
    assert(s[off(v, t1, t2, t3, 18) - ps] == s.subrange(off(v, t1, t2, t3, 18) - ps, off(v, t1, t2, t3, 19) - ps)[0]);
    lemma_quote_after(s, off(v, t1, t2, t3, 17) - ps, fixed_text(v.point.hae as int));
}

#[verifier::rlimit(100)]
#[verifier::spinoff_prover]
proof fn lemma_point_ce(v: CotView, t1: Seq<char>, t2: Seq<char>, t3: Seq<char>)
    requires
        sec_laid_out(v, t1, t2, t3),
    ensures
        attribute_value(section(v, t1, t2, t3), name_ce()) == Some(piece(v, t1, t2, t3, 19)),
{
    let s = section(v, t1, t2, t3);
    let ps = off(v, t1, t2, t3, 12) + 2;
    let p = attr_pattern(name_ce());
    assert(p =~= name_ce() + seq![61u8, 34u8]);
    let q0 = lat_open().subrange(2, 14);
    assert(piece(v, t1, t2, t3, 12) == lat_open());
    lemma_free(q0, p);
    lemma_scan_literal(s, p, 0, 0, q0);
    assert(piece(v, t1, t2, t3, 13) == fixed_text(v.point.lat as int));
    lemma_number_bytes(v.point.lat as int);
    assert(lon_open()[0] == 34u8);
    assert(s[off(v, t1, t2, t3, 14) - ps] == s.subrange(off(v, t1, t2, t3, 14) - ps, off(v, t1, t2, t3, 15) - ps)[0]);
    lemma_scan_value_attr(s, p, 0, off(v, t1, t2, t3, 13) - ps, fixed_text(v.point.lat as int));
    assert(piece(v, t1, t2, t3, 14) == lon_open());
    lemma_free(lon_open(), p);
    lemma_scan_literal(s, p, 0, off(v, t1, t2, t3, 14) - ps, lon_open());
    assert(piece(v, t1, t2, t3, 15) == fixed_text(v.point.lon as int));
    lemma_number_bytes(v.point.lon as int);
    assert(hae_open()[0] == 34u8);
    assert(s[off(v, t1, t2, t3, 16) - ps] == s.subrange(off(v, t1, t2, t3, 16) - ps, off(v, t1, t2, t3, 17) - ps)[0]);
    lemma_scan_value_attr(s, p, 0, off(v, t1, t2, t3, 15) - ps, fixed_text(v.point.lon as int));
    assert(piece(v, t1, t2, t3, 16) == hae_open());
    lemma_free(hae_open(), p);
    lemma_scan_literal(s, p, 0, off(v, t1, t2, t3, 16) - ps, hae_open());
    assert(piece(v, t1, t2, t3, 17) == fixed_text(v.point.hae as int));
    lemma_number_bytes(v.point.hae as int);
    assert(ce_open()[0] == 34u8);
    assert(s[off(v, t1, t2, t3, 18) - ps] == s.subrange(off(v, t1, t2, t3, 18) - ps, off(v, t1, t2, t3, 19) - ps)[0]);
    lemma_scan_value_attr(s, p, 0, off(v, t1, t2, t3, 17) - ps, fixed_text(v.point.hae as int));
    assert(piece(v, t1, t2, t3, 18) == ce_open());
    lemma_free_upto(ce_open(), p, 2);
    assert(ce_open().subrange(2, 2 + p.len() as int) =~= p);
    lemma_found_in_literal(s, p, off(v, t1, t2, t3, 18) - ps, ce_open(), 2);
    lemma_number_bytes(v.point.ce as int);
    assert(piece(v, t1, t2, t3, 19) == fixed_text(v.point.ce as int));
    assert(le_open()[0] == 34u8);
    assert(s[off(v, t1, t2, t3, 20) - ps] == s.subrange(off(v, t1, t2, t3, 20) - ps, off(v, t1, t2, t3, 21) - ps)[0]);
    lemma_quote_after(s, off(v, t1, t2, t3, 19) - ps, fixed_text(v.point.ce as int));
}

#[verifier::rlimit(100)]
#[verifier::spinoff_prover]
proof fn lemma_point_le(v: CotView, t1: Seq<char>, t2: Seq<char>, t3: Seq<char>)
    requires
        sec_laid_out(v, t1, t2, t3),
    ensures
        attribute_value(section(v, t1, t2, t3), name_le()) == Some(piece(v, t1, t2, t3, 21)),
{
    let s = section(v, t1, t2, t3);
    let ps = off(v, t1, t2, t3, 12) + 2;
    let p = attr_pattern(name_le());
    assert(p =~= name_le() + seq![61u8, 34u8]);
    let q0 = lat_open().subrange(2, 14);
    assert(piece(v, t1, t2, t3, 12) == lat_open());
    lemma_free(q0, p);
    lemma_scan_literal(s, p, 0, 0, q0);
    assert(piece(v, t1, t2, t3, 13) == fixed_text(v.point.lat as int));
    lemma_number_bytes(v.point.lat as int);
    assert(lon_open()[0] == 34u8);
    assert(s[off(v, t1, t2, t3, 14) - ps] == s.subrange(off(v, t1, t2, t3, 14) - ps, off(v, t1, t2, t3, 15) - ps)[0]);
    lemma_scan_value_attr(s, p, 0, off(v, t1, t2, t3, 13) - ps, fixed_text(v.point.lat as int));
    assert(piece(v, t1, t2, t3, 14) == lon_open());
    lemma_free(lon_open(), p);
    lemma_scan_literal(s, p, 0, off(v, t1, t2, t3, 14) - ps, lon_open());
    assert(piece(v, t1, t2, t3, 15) == fixed_text(v.point.lon as int));
    lemma_number_bytes(v.point.lon as int);
    assert(hae_open()[0] == 34u8);
    assert(s[off(v, t1, t2, t3, 16) - ps] == s.subrange(off(v, t1, t2, t3, 16) - ps, off(v, t1, t2, t3, 17) - ps)[0]);
    lemma_scan_value_attr(s, p, 0, off(v, t1, t2, t3, 15) - ps, fixed_text(v.point.lon as int));
    assert(piece(v, t1, t2, t3, 16) == hae_open());
    lemma_free(hae_open(), p);
    lemma_scan_literal(s, p, 0, off(v, t1, t2, t3, 16) - ps, hae_open());
    assert(piece(v, t1, t2, t3, 17) == fixed_text(v.point.hae as int));
    lemma_number_bytes(v.point.hae as int);
    assert(ce_open()[0] == 34u8);
    assert(s[off(v, t1, t2, t3, 18) - ps] == s.subrange(off(v, t1, t2, t3, 18) - ps, off(v, t1, t2, t3, 19) - ps)[0]);
    lemma_scan_value_attr(s, p, 0, off(v, t1, t2, t3, 17) - ps, fixed_text(v.point.hae as int));
    assert(piece(v, t1, t2, t3, 18) == ce_open());
    lemma_free(ce_open(), p);
    lemma_scan_literal(s, p, 0, off(v, t1, t2, t3, 18) - ps, ce_open());
    assert(piece(v, t1, t2, t3, 19) == fixed_text(v.point.ce as int));
    lemma_number_bytes(v.point.ce as int);
    assert(le_open()[0] == 34u8);
    assert(s[off(v, t1, t2, t3, 20) - ps] == s.subrange(off(v, t1, t2, t3, 20) - ps, off(v, t1, t2, t3, 21) - ps)[0]);
    lemma_scan_value_attr(s, p, 0, off(v, t1, t2, t3, 19) - ps, fixed_text(v.point.ce as int));
    assert(piece(v, t1, t2, t3, 20) == le_open());
    lemma_free_upto(le_open(), p, 2);
    assert(le_open().subrange(2, 2 + p.len() as int) =~= p);
    lemma_found_in_literal(s, p, off(v, t1, t2, t3, 20) - ps, le_open(), 2);
    lemma_number_bytes(v.point.le as int);
    assert(piece(v, t1, t2, t3, 21) == fixed_text(v.point.le as int));
    lemma_quote_after(s, off(v, t1, t2, t3, 21) - ps, fixed_text(v.point.le as int));
}

#[verifier::rlimit(100)]
#[verifier::spinoff_prover]
proof fn lemma_scan_open_a(v: CotView, t1: Seq<char>, t2: Seq<char>, t3: Seq<char>)
    requires
        laid_out(v, t1, t2, t3),
        attr_text_ok(v.uid),
        attr_text_ok(v.event_type),
        attr_text_ok(v.how),
        forall|i: int| 0 <= i < t1.len() ==> is_time_char(#[trigger] t1[i]),
        forall|i: int| 0 <= i < t2.len() ==> is_time_char(#[trigger] t2[i]),
        forall|i: int| 0 <= i < t3.len() ==> is_time_char(#[trigger] t3[i]),
    ensures
        no_occ(xml_with_times(v, t1, t2, t3), detail_open(), 0, off(v, t1, t2, t3, 12)),
{
    let h = xml_with_times(v, t1, t2, t3);
    assert(piece(v, t1, t2, t3, 0) == head());
    lemma_free(head(), detail_open());
    lemma_scan_literal(h, detail_open(), 0, off(v, t1, t2, t3, 0), head());
    assert(piece(v, t1, t2, t3, 1) == encode_utf8(v.uid));
    lemma_scan_value_first(h, detail_open(), 0, off(v, t1, t2, t3, 1), encode_utf8(v.uid));
    assert(piece(v, t1, t2, t3, 2) == type_open());
    lemma_free(type_open(), detail_open());
    lemma_scan_literal(h, detail_open(), 0, off(v, t1, t2, t3, 2), type_open());
    assert(piece(v, t1, t2, t3, 3) == encode_utf8(v.event_type));
    lemma_scan_value_first(h, detail_open(), 0, off(v, t1, t2, t3, 3), encode_utf8(v.event_type));
    assert(piece(v, t1, t2, t3, 4) == how_open());
    lemma_free(how_open(), detail_open());
    lemma_scan_literal(h, detail_open(), 0, off(v, t1, t2, t3, 4), how_open());
    assert(piece(v, t1, t2, t3, 5) == encode_utf8(v.how));
    lemma_scan_value_first(h, detail_open(), 0, off(v, t1, t2, t3, 5), encode_utf8(v.how));
    assert(piece(v, t1, t2, t3, 6) == time_open());
    lemma_free(time_open(), detail_open());
    lemma_scan_literal(h, detail_open(), 0, off(v, t1, t2, t3, 6), time_open());
    assert(piece(v, t1, t2, t3, 7) == encode_utf8(t1));
    lemma_time_bytes(t1);
    lemma_scan_value_first(h, detail_open(), 0, off(v, t1, t2, t3, 7), encode_utf8(t1));
    assert(piece(v, t1, t2, t3, 8) == start_open());
    lemma_free(start_open(), detail_open());
    lemma_scan_literal(h, detail_open(), 0, off(v, t1, t2, t3, 8), start_open());
    assert(piece(v, t1, t2, t3, 9) == encode_utf8(t2));
    lemma_time_bytes(t2);
    lemma_scan_value_first(h, detail_open(), 0, off(v, t1, t2, t3, 9), encode_utf8(t2));
    assert(piece(v, t1, t2, t3, 10) == stale_open());
    lemma_free(stale_open(), detail_open());
    lemma_scan_literal(h, detail_open(), 0, off(v, t1, t2, t3, 10), stale_open());
    assert(piece(v, t1, t2, t3, 11) == encode_utf8(t3));
    lemma_time_bytes(t3);
    lemma_scan_value_first(h, detail_open(), 0, off(v, t1, t2, t3, 11), encode_utf8(t3));
}

#[verifier::rlimit(100)]
#[verifier::spinoff_prover]
proof fn lemma_scan_open_b(v: CotView, t1: Seq<char>, t2: Seq<char>, t3: Seq<char>)
    requires
        laid_out(v, t1, t2, t3),
        attr_text_ok(v.uid),
        attr_text_ok(v.event_type),
        attr_text_ok(v.how),
        forall|i: int| 0 <= i < t1.len() ==> is_time_char(#[trigger] t1[i]),
        forall|i: int| 0 <= i < t2.len() ==> is_time_char(#[trigger] t2[i]),
        forall|i: int| 0 <= i < t3.len() ==> is_time_char(#[trigger] t3[i]),
        no_occ(xml_with_times(v, t1, t2, t3), detail_open(), 0, off(v, t1, t2, t3, 12)),
    ensures
        no_occ(xml_with_times(v, t1, t2, t3), detail_open(), 0, off(v, t1, t2, t3, 23)),
{
    let h = xml_with_times(v, t1, t2, t3);
    assert(piece(v, t1, t2, t3, 12) == lat_open());
    lemma_free(lat_open(), detail_open());
    lemma_scan_literal(h, detail_open(), 0, off(v, t1, t2, t3, 12), lat_open());
    assert(piece(v, t1, t2, t3, 13) == fixed_text(v.point.lat as int));
    lemma_number_bytes(v.point.lat as int);
    lemma_scan_value_first(h, detail_open(), 0, off(v, t1, t2, t3, 13), fixed_text(v.point.lat as int));
    assert(piece(v, t1, t2, t3, 14) == lon_open());
    lemma_free(lon_open(), detail_open());
    lemma_scan_literal(h, detail_open(), 0, off(v, t1, t2, t3, 14), lon_open());
    assert(piece(v, t1, t2, t3, 15) == fixed_text(v.point.lon as int));
    lemma_number_bytes(v.point.lon as int);
    lemma_scan_value_first(h, detail_open(), 0, off(v, t1, t2, t3, 15), fixed_text(v.point.lon as int));
    assert(piece(v, t1, t2, t3, 16) == hae_open());
    lemma_free(hae_open(), detail_open());
    lemma_scan_literal(h, detail_open(), 0, off(v, t1, t2, t3, 16), hae_open());
    assert(piece(v, t1, t2, t3, 17) == fixed_text(v.point.hae as int));
    lemma_number_bytes(v.point.hae as int);
    lemma_scan_value_first(h, detail_open(), 0, off(v, t1, t2, t3, 17), fixed_text(v.point.hae as int));
    assert(piece(v, t1, t2, t3, 18) == ce_open());
    lemma_free(ce_open(), detail_open());
    lemma_scan_literal(h, detail_open(), 0, off(v, t1, t2, t3, 18), ce_open());
    assert(piece(v, t1, t2, t3, 19) == fixed_text(v.point.ce as int));
    lemma_number_bytes(v.point.ce as int);
    lemma_scan_value_first(h, detail_open(), 0, off(v, t1, t2, t3, 19), fixed_text(v.point.ce as int));
    assert(piece(v, t1, t2, t3, 20) == le_open());
    lemma_free(le_open(), detail_open());
    lemma_scan_literal(h, detail_open(), 0, off(v, t1, t2, t3, 20), le_open());
    assert(piece(v, t1, t2, t3, 21) == fixed_text(v.point.le as int));
    lemma_number_bytes(v.point.le as int);
    lemma_scan_value_first(h, detail_open(), 0, off(v, t1, t2, t3, 21), fixed_text(v.point.le as int));
    assert(piece(v, t1, t2, t3, 22) == point_close());
    lemma_free(point_close(), detail_open());
    lemma_scan_literal(h, detail_open(), 0, off(v, t1, t2, t3, 22), point_close());
}

#[verifier::rlimit(100)]
#[verifier::spinoff_prover]
proof fn lemma_scan_close_a(v: CotView, t1: Seq<char>, t2: Seq<char>, t3: Seq<char>)
    requires
        laid_out(v, t1, t2, t3),
        attr_text_ok(v.uid),
        attr_text_ok(v.event_type),
        attr_text_ok(v.how),
        forall|i: int| 0 <= i < t1.len() ==> is_time_char(#[trigger] t1[i]),
        forall|i: int| 0 <= i < t2.len() ==> is_time_char(#[trigger] t2[i]),
        forall|i: int| 0 <= i < t3.len() ==> is_time_char(#[trigger] t3[i]),
    ensures
        no_occ(xml_with_times(v, t1, t2, t3), detail_close(), 0, off(v, t1, t2, t3, 12)),
{
    let h = xml_with_times(v, t1, t2, t3);
    assert(piece(v, t1, t2, t3, 0) == head());
    lemma_free(head(), detail_close());
    lemma_scan_literal(h, detail_close(), 0, off(v, t1, t2, t3, 0), head());
    assert(piece(v, t1, t2, t3, 1) == encode_utf8(v.uid));
    lemma_scan_value_first(h, detail_close(), 0, off(v, t1, t2, t3, 1), encode_utf8(v.uid));
    assert(piece(v, t1, t2, t3, 2) == type_open());
    lemma_free(type_open(), detail_close());
    lemma_scan_literal(h, detail_close(), 0, off(v, t1, t2, t3, 2), type_open());
    assert(piece(v, t1, t2, t3, 3) == encode_utf8(v.event_type));
    lemma_scan_value_first(h, detail_close(), 0, off(v, t1, t2, t3, 3), encode_utf8(v.event_type));
    assert(piece(v, t1, t2, t3, 4) == how_open());
    lemma_free(how_open(), detail_close());
    lemma_scan_literal(h, detail_close(), 0, off(v, t1, t2, t3, 4), how_open());
    assert(piece(v, t1, t2, t3, 5) == encode_utf8(v.how));
    lemma_scan_value_first(h, detail_close(), 0, off(v, t1, t2, t3, 5), encode_utf8(v.how));
    assert(piece(v, t1, t2, t3, 6) == time_open());
    lemma_free(time_open(), detail_close());
    lemma_scan_literal(h, detail_close(), 0, off(v, t1, t2, t3, 6), time_open());
    assert(piece(v, t1, t2, t3, 7) == encode_utf8(t1));
    lemma_time_bytes(t1);
    lemma_scan_value_first(h, detail_close(), 0, off(v, t1, t2, t3, 7), encode_utf8(t1));
    assert(piece(v, t1, t2, t3, 8) == start_open());
    lemma_free(start_open(), detail_close());
    lemma_scan_literal(h, detail_close(), 0, off(v, t1, t2, t3, 8), start_open());
    assert(piece(v, t1, t2, t3, 9) == encode_utf8(t2));
    lemma_time_bytes(t2);
    lemma_scan_value_first(h, detail_close(), 0, off(v, t1, t2, t3, 9), encode_utf8(t2));
    assert(piece(v, t1, t2, t3, 10) == stale_open());
    lemma_free(stale_open(), detail_close());
    lemma_scan_literal(h, detail_close(), 0, off(v, t1, t2, t3, 10), stale_open());
    assert(piece(v, t1, t2, t3, 11) == encode_utf8(t3));
    lemma_time_bytes(t3);
    lemma_scan_value_first(h, detail_close(), 0, off(v, t1, t2, t3, 11), encode_utf8(t3));
}

#[verifier::rlimit(100)]
#[verifier::spinoff_prover]
proof fn lemma_scan_close_b(v: CotView, t1: Seq<char>, t2: Seq<char>, t3: Seq<char>)
    requires
        laid_out(v, t1, t2, t3),
        attr_text_ok(v.uid),
        attr_text_ok(v.event_type),
        attr_text_ok(v.how),
        forall|i: int| 0 <= i < t1.len() ==> is_time_char(#[trigger] t1[i]),
        forall|i: int| 0 <= i < t2.len() ==> is_time_char(#[trigger] t2[i]),
        forall|i: int| 0 <= i < t3.len() ==> is_time_char(#[trigger] t3[i]),
        no_occ(xml_with_times(v, t1, t2, t3), detail_close(), 0, off(v, t1, t2, t3, 12)),
    ensures
        no_occ(xml_with_times(v, t1, t2, t3), detail_close(), 0, off(v, t1, t2, t3, 23)),
{
    let h = xml_with_times(v, t1, t2, t3);
    assert(piece(v, t1, t2, t3, 12) == lat_open());
    lemma_free(lat_open(), detail_close());
    lemma_scan_literal(h, detail_close(), 0, off(v, t1, t2, t3, 12), lat_open());
    assert(piece(v, t1, t2, t3, 13) == fixed_text(v.point.lat as int));
    lemma_number_bytes(v.point.lat as int);
    lemma_scan_value_first(h, detail_close(), 0, off(v, t1, t2, t3, 13), fixed_text(v.point.lat as int));
    assert(piece(v, t1, t2, t3, 14) == lon_open());
    lemma_free(lon_open(), detail_close());
    lemma_scan_literal(h, detail_close(), 0, off(v, t1, t2, t3, 14), lon_open());
    assert(piece(v, t1, t2, t3, 15) == fixed_text(v.point.lon as int));
    lemma_number_bytes(v.point.lon as int);
    lemma_scan_value_first(h, detail_close(), 0, off(v, t1, t2, t3, 15), fixed_text(v.point.lon as int));
    assert(piece(v, t1, t2, t3, 16) == hae_open());
    lemma_free(hae_open(), detail_close());
    lemma_scan_literal(h, detail_close(), 0, off(v, t1, t2, t3, 16), hae_open());
    assert(piece(v, t1, t2, t3, 17) == fixed_text(v.point.hae as int));
    lemma_number_bytes(v.point.hae as int);
    lemma_scan_value_first(h, detail_close(), 0, off(v, t1, t2, t3, 17), fixed_text(v.point.hae as int));
    assert(piece(v, t1, t2, t3, 18) == ce_open());
    lemma_free(ce_open(), detail_close());
    lemma_scan_literal(h, detail_close(), 0, off(v, t1, t2, t3, 18), ce_open());
    assert(piece(v, t1, t2, t3, 19) == fixed_text(v.point.ce as int));
    lemma_number_bytes(v.point.ce as int);
    lemma_scan_value_first(h, detail_close(), 0, off(v, t1, t2, t3, 19), fixed_text(v.point.ce as int));
    assert(piece(v, t1, t2, t3, 20) == le_open());
    lemma_free(le_open(), detail_close());
    lemma_scan_literal(h, detail_close(), 0, off(v, t1, t2, t3, 20), le_open());
    assert(piece(v, t1, t2, t3, 21) == fixed_text(v.point.le as int));
    lemma_number_bytes(v.point.le as int);
    lemma_scan_value_first(h, detail_close(), 0, off(v, t1, t2, t3, 21), fixed_text(v.point.le as int));
    assert(piece(v, t1, t2, t3, 22) == point_close());
    lemma_free(point_close(), detail_close());
    lemma_scan_literal(h, detail_close(), 0, off(v, t1, t2, t3, 22), point_close());
}


#[verifier::rlimit(100)]
#[verifier::spinoff_prover]
proof fn lemma_tail(v: CotView, t1: Seq<char>, t2: Seq<char>, t3: Seq<char>)
    ensures
        ({
            let h = xml_with_times(v, t1, t2, t3);
            let o = off(v, t1, t2, t3, 23);
            match v.detail {
                Some(d) => {
                    &&& h.len() == o + 8 + encode_utf8(d).len() + 9 + 8
                    &&& h.subrange(o, o + 8) == detail_open()
                    &&& h.subrange(o + 8, o + 8 + encode_utf8(d).len()) == encode_utf8(d)
                    &&& h.subrange(o + 8 + encode_utf8(d).len(), o + 17 + encode_utf8(d).len()) == detail_close()
                },
                None => {
                    &&& h.len() == o + 8
                    &&& h.subrange(o, o + 8) == event_close()
                },
            }
        }),
{
    let h = xml_with_times(v, t1, t2, t3);
    let b = build(v, t1, t2, t3, 23);
    lemma_built(v, t1, t2, t3);
    lemma_build(v, t1, t2, t3, 23);
    let o = off(v, t1, t2, t3, 23);
    match v.detail {
        Some(d) => {
            let dd = encode_utf8(d);
            assert(detail_part(v.detail) == detail_open() + dd + detail_close());
            assert(h.subrange(o, o + 8) =~= detail_open());
            assert(h.subrange(o + 8, o + 8 + dd.len()) =~= dd);
            assert(h.subrange(o + 8 + dd.len(), o + 17 + dd.len()) =~= detail_close());
        },
        None => {
            assert(detail_part(v.detail) =~= Seq::<u8>::empty());
            assert(h.subrange(o, o + 8) =~= event_close());
        },
    }
}

#[verifier::rlimit(100)]
#[verifier::spinoff_prover]
proof fn lemma_detail(v: CotView, t1: Seq<char>, t2: Seq<char>, t3: Seq<char>)
    requires
        laid_out(v, t1, t2, t3),
        attr_text_ok(v.uid),
        attr_text_ok(v.event_type),
        attr_text_ok(v.how),
        forall|i: int| 0 <= i < t1.len() ==> is_time_char(#[trigger] t1[i]),
        forall|i: int| 0 <= i < t2.len() ==> is_time_char(#[trigger] t2[i]),
        forall|i: int| 0 <= i < t3.len() ==> is_time_char(#[trigger] t3[i]),
        detail_ok(v.detail),
    ensures
        detail_section(xml_with_times(v, t1, t2, t3)) == (match v.detail {
            Some(d) => Some(encode_utf8(d)),
            None => None::<Seq<u8>>,
        }),
{
    let h = xml_with_times(v, t1, t2, t3);
    let o = off(v, t1, t2, t3, 23);
    lemma_tail(v, t1, t2, t3);
    lemma_scan_open_a(v, t1, t2, t3);
    lemma_scan_open_b(v, t1, t2, t3);
    match v.detail {
        Some(d) => {
            let dd = encode_utf8(d);
            assert(detail_open().subrange(0, 8) =~= detail_open());
            lemma_found_in_literal(h, detail_open(), o, detail_open(), 0);
            lemma_scan_close_a(v, t1, t2, t3);
            lemma_scan_close_b(v, t1, t2, t3);
            lemma_free(detail_open(), detail_close());
            lemma_scan_literal(h, detail_close(), 0, o, detail_open());
            lemma_find_from(dd, detail_close(), 0);
            assert(h[o + 8 + dd.len()] == h.subrange(o + 8 + dd.len(), o + 17 + dd.len())[0]);
            lemma_scan_value_closed(h, detail_close(), 0, o + 8, dd);
            assert(detail_close().subrange(0, 9) =~= detail_close());
            lemma_found_in_literal(h, detail_close(), o + 8 + dd.len(), detail_close(), 0);
        },
        None => {
            lemma_free(event_close(), detail_open());
            lemma_scan_literal(h, detail_open(), 0, o, event_close());
            lemma_not_found(h, detail_open());
        },
    }
}

/// Chrono wrote each instant of `v` with time characters only, as the wrapper
/// around its writer states of every text it hands back.
pub open spec fn plain_times(v: CotView) -> bool {
    &&& forall|i: int|
        0 <= i < rfc3339_millis_text(v.time)->Some_0.len() ==> is_time_char(
            #[trigger] rfc3339_millis_text(v.time)->Some_0[i],
        )
    &&& forall|i: int|
        0 <= i < rfc3339_millis_text(v.start)->Some_0.len() ==> is_time_char(
            #[trigger] rfc3339_millis_text(v.start)->Some_0[i],
        )
    &&& forall|i: int|
        0 <= i < rfc3339_millis_text(v.stale)->Some_0.len() ==> is_time_char(
            #[trigger] rfc3339_millis_text(v.stale)->Some_0[i],
        )
}

/// Round trip: reading the document written for an event gives the event
/// back, field by field, with each instant read back from its text (see
/// `read_back`). The uid, type and how texts hold no quote, `=` or `<`, the
/// detail holds no `</detail>`, and the instant texts are as chrono writes
/// them.
#[verifier::rlimit(100)]
#[verifier::spinoff_prover]
pub proof fn lemma_cot_round_trip(v: CotView)
    requires
        cot_encode(v) is Some,
        plain_times(v),
        attr_text_ok(v.uid),
        attr_text_ok(v.event_type),
        attr_text_ok(v.how),
        detail_ok(v.detail),
    ensures
        cot_decode(cot_encode(v)->Some_0) == read_back(v),
{
    let t1 = rfc3339_millis_text(v.time)->Some_0;
    let t2 = rfc3339_millis_text(v.start)->Some_0;
    let t3 = rfc3339_millis_text(v.stale)->Some_0;
    let h = xml_with_times(v, t1, t2, t3);
    assert(cot_encode(v)->Some_0 == h);
    lemma_layout(v, t1, t2, t3);
    lemma_attr_uid(v, t1, t2, t3);
    lemma_attr_type(v, t1, t2, t3);
    lemma_attr_how(v, t1, t2, t3);
    lemma_attr_time(v, t1, t2, t3);
    lemma_attr_start(v, t1, t2, t3);
    lemma_attr_stale(v, t1, t2, t3);
    lemma_point_start(v, t1, t2, t3);
    lemma_point_end(v, t1, t2, t3);
    assert(point_section(h) == Some(section(v, t1, t2, t3)));
    lemma_sec_layout(v, t1, t2, t3);
    lemma_point_lat(v, t1, t2, t3);
    lemma_point_lon(v, t1, t2, t3);
    lemma_point_hae(v, t1, t2, t3);
    lemma_point_ce(v, t1, t2, t3);
    lemma_point_le(v, t1, t2, t3);
    lemma_detail(v, t1, t2, t3);
    vstd::utf8::encode_utf8_valid_utf8(v.uid);
    vstd::utf8::encode_utf8_valid_utf8(v.event_type);
    vstd::utf8::encode_utf8_valid_utf8(v.how);
    vstd::utf8::encode_utf8_valid_utf8(t1);
    vstd::utf8::encode_utf8_valid_utf8(t2);
    vstd::utf8::encode_utf8_valid_utf8(t3);
    vstd::utf8::encode_utf8_decode_utf8(v.uid);
    vstd::utf8::encode_utf8_decode_utf8(v.event_type);
    vstd::utf8::encode_utf8_decode_utf8(v.how);
    vstd::utf8::encode_utf8_decode_utf8(t1);
    vstd::utf8::encode_utf8_decode_utf8(t2);
    vstd::utf8::encode_utf8_decode_utf8(t3);
    lemma_fixed_round_trip(v.point.lat as int);
    lemma_fixed_round_trip(v.point.lon as int);
    lemma_fixed_round_trip(v.point.hae as int);
    lemma_fixed_round_trip(v.point.ce as int);
    lemma_fixed_round_trip(v.point.le as int);
    assert(piece(v, t1, t2, t3, 1) == encode_utf8(v.uid));
    assert(piece(v, t1, t2, t3, 3) == encode_utf8(v.event_type));
    assert(piece(v, t1, t2, t3, 5) == encode_utf8(v.how));
    assert(piece(v, t1, t2, t3, 7) == encode_utf8(t1));
    assert(piece(v, t1, t2, t3, 9) == encode_utf8(t2));
    assert(piece(v, t1, t2, t3, 11) == encode_utf8(t3));
    assert(piece(v, t1, t2, t3, 13) == fixed_text(v.point.lat as int));
    assert(piece(v, t1, t2, t3, 15) == fixed_text(v.point.lon as int));
    assert(piece(v, t1, t2, t3, 17) == fixed_text(v.point.hae as int));
    assert(piece(v, t1, t2, t3, 19) == fixed_text(v.point.ce as int));
    assert(piece(v, t1, t2, t3, 21) == fixed_text(v.point.le as int));
    match v.detail {
        Some(d) => {
            vstd::utf8::encode_utf8_valid_utf8(d);
            vstd::utf8::encode_utf8_decode_utf8(d);
        },
        None => {},
    }
}

} // verus!
