use vstd::prelude::*;
use crate::byteseq::{find, find_from, occurs_at, lemma_find_from_is, lemma_find_from_none};

verus! {

/// No occurrence of `p` in `h` starts in `[a, x)`.
pub open spec fn no_occ(h: Seq<u8>, p: Seq<u8>, a: int, x: int) -> bool {
    forall|j: int| a <= j < x ==> !occurs_at(h, p, j)
}

/// `s` holds the byte `c` nowhere.
pub open spec fn lacks(s: Seq<u8>, c: u8) -> bool {
    forall|i: int| 0 <= i < s.len() ==> s[i] != c
}

proof fn lemma_occ_byte(h: Seq<u8>, p: Seq<u8>, j: int, t: int)
    requires
        occurs_at(h, p, j),
        0 <= t < p.len(),
    ensures
        h[j + t] == p[t],
{
    assert(h.subrange(j, j + p.len())[t] == p[t]);
}

/// Scanning over a literal piece `l` at `off`: an occurrence starting in it
/// would lie inside it, or run past its last byte, which `p` holds only at
/// its own last position.
pub proof fn lemma_scan_literal(h: Seq<u8>, p: Seq<u8>, a: int, off: int, l: Seq<u8>)
    requires
        0 <= a <= off,
        off + l.len() <= h.len(),
        l.len() > 0,
        p.len() > 0,
        h.subrange(off, off + l.len()) == l,
        no_occ(h, p, a, off),
        forall|k: int| 0 <= k && k + p.len() <= l.len() ==> !occurs_at(l, p, k),
        forall|t: int| 0 <= t < p.len() - 1 ==> p[t] != l.last(),
    ensures
        no_occ(h, p, a, off + l.len()),
{
    assert forall|j: int| a <= j < off + l.len() implies !occurs_at(h, p, j) by {
        if j >= off && occurs_at(h, p, j) {
            if j + p.len() <= off + l.len() {
                assert(l.subrange(j - off, j - off + p.len()) =~= h.subrange(j, j + p.len()));
                assert(occurs_at(l, p, j - off));
            } else {
                let t = off + l.len() - 1 - j;
                lemma_occ_byte(h, p, j, t);
                assert(h[off + l.len() - 1] == l[l.len() - 1]);
            }
        }
    }
}

/// Finding `p` in a literal piece `l` at `off`, at offset `o` of the piece.
pub proof fn lemma_found_in_literal(h: Seq<u8>, p: Seq<u8>, off: int, l: Seq<u8>, o: int)
    requires
        0 <= off,
        off + l.len() <= h.len(),
        h.subrange(off, off + l.len()) == l,
        no_occ(h, p, 0, off),
        occurs_at(l, p, o),
        forall|k: int| 0 <= k < o ==> !occurs_at(l, p, k),
    ensures
        find(h, p) == Some(off + o),
{
    assert(h.subrange(off + o, off + o + p.len()) =~= l.subrange(o, o + p.len()));
    assert forall|j: int| 0 <= j < off + o implies !occurs_at(h, p, j) by {
        if j >= off && occurs_at(h, p, j) {
            assert(l.subrange(j - off, j - off + p.len()) =~= h.subrange(j, j + p.len()));
            assert(occurs_at(l, p, j - off));
        }
    }
    lemma_find_from_is(h, p, 0, off + o);
}

/// Scanning over a value `v` at `off` that lacks the first byte of `p`.
pub proof fn lemma_scan_value_first(h: Seq<u8>, p: Seq<u8>, a: int, off: int, v: Seq<u8>)
    requires
        0 <= a <= off,
        off + v.len() <= h.len(),
        p.len() > 0,
        h.subrange(off, off + v.len()) == v,
        no_occ(h, p, a, off),
        lacks(v, p[0]),
    ensures
        no_occ(h, p, a, off + v.len()),
{
    assert forall|j: int| a <= j < off + v.len() implies !occurs_at(h, p, j) by {
        if j >= off && occurs_at(h, p, j) {
            lemma_occ_byte(h, p, j, 0);
            assert(h[j] == v[j - off]);
        }
    }
}

/// `p` is `name="` with a name of at least one byte and no quote.
pub open spec fn attr_like(p: Seq<u8>) -> bool {
    &&& p.len() >= 3
    &&& p[p.len() - 1] == 34u8
    &&& p[p.len() - 2] == 61u8
    &&& forall|t: int| 0 <= t < p.len() - 1 ==> p[t] != 34u8
}

/// Scanning over a value `v` at `off` without quotes or `=`, followed by a
/// quote: `name="` cannot start inside it.
pub proof fn lemma_scan_value_attr(h: Seq<u8>, p: Seq<u8>, a: int, off: int, v: Seq<u8>)
    requires
        0 <= a <= off,
        off + v.len() < h.len(),
        attr_like(p),
        h.subrange(off, off + v.len()) == v,
        h[off + v.len()] == 34u8,
        no_occ(h, p, a, off),
        lacks(v, 34u8),
        lacks(v, 61u8),
    ensures
        no_occ(h, p, a, off + v.len()),
{
    assert forall|j: int| a <= j < off + v.len() implies !occurs_at(h, p, j) by {
        if j >= off && occurs_at(h, p, j) {
            let q = j + p.len() - 2;
            let e = off + v.len();
            lemma_occ_byte(h, p, j, p.len() - 2);
            lemma_occ_byte(h, p, j, p.len() - 1);
            if q + 1 < e {
                assert(h[q + 1] == v[q + 1 - off]);
            } else if q < e {
                assert(h[q] == v[q - off]);
            } else {
                lemma_occ_byte(h, p, j, e - j);
            }
        }
    }
}

/// Scanning over a value `v` at `off` followed by a byte `c` that `p` holds
/// only at its first position, when `p` does not occur inside `v`.
pub proof fn lemma_scan_value_closed(h: Seq<u8>, p: Seq<u8>, a: int, off: int, v: Seq<u8>)
    requires
        0 <= a <= off,
        off + v.len() < h.len(),
        p.len() > 0,
        h.subrange(off, off + v.len()) == v,
        h[off + v.len()] == p[0],
        forall|t: int| 1 <= t < p.len() ==> #[trigger] p[t] != p[0],
        no_occ(h, p, a, off),
        forall|k: int| 0 <= k && k + p.len() <= v.len() ==> !occurs_at(v, p, k),
    ensures
        no_occ(h, p, a, off + v.len()),
{
    assert forall|j: int| a <= j < off + v.len() implies !occurs_at(h, p, j) by {
        if j >= off && occurs_at(h, p, j) {
            if j + p.len() <= off + v.len() {
                assert(v.subrange(j - off, j - off + p.len()) =~= h.subrange(j, j + p.len()));
                assert(occurs_at(v, p, j - off));
            } else {
                lemma_occ_byte(h, p, j, off + v.len() - j);
            }
        }
    }
}

/// The first quote at or after `s` ends a value without quotes.
pub proof fn lemma_quote_after(h: Seq<u8>, s: int, v: Seq<u8>)
    requires
        0 <= s,
        s + v.len() < h.len(),
        h.subrange(s, s + v.len()) == v,
        h[s + v.len()] == 34u8,
        lacks(v, 34u8),
    ensures
        find_from(h, seq![34u8], s) == Some(s + v.len()),
{
    let q = seq![34u8];
    assert(h.subrange(s + v.len(), s + v.len() + 1) =~= q);
    assert forall|j: int| s <= j < s + v.len() implies !occurs_at(h, q, j) by {
        if occurs_at(h, q, j) {
            lemma_occ_byte(h, q, j, 0);
            assert(h[j] == v[j - s]);
        }
    }
    lemma_find_from_is(h, q, s, s + v.len());
}

/// No occurrence anywhere: `find` finds nothing.
pub proof fn lemma_not_found(h: Seq<u8>, p: Seq<u8>)
    requires
        p.len() > 0,
        no_occ(h, p, 0, h.len() as int),
    ensures
        find(h, p) is None,
{
    lemma_find_from_none(h, p, 0);
}

/// A literal piece holds no occurrence of `p` when no position of it
/// starts with the first (up to four) bytes of `p`.
pub proof fn lemma_free(l: Seq<u8>, p: Seq<u8>)
    requires
        p.len() >= 2,
        forall|k: int|
            0 <= k && k + p.len() <= l.len() ==> (#[trigger] l[k] != p[0] || l[k + 1] != p[1] || (
            p.len() >= 3 && l[k + 2] != p[2]) || (p.len() >= 4 && l[k + 3] != p[3])),
    ensures
        forall|k: int| 0 <= k && k + p.len() <= l.len() ==> !occurs_at(l, p, k),
{
    assert forall|k: int| 0 <= k && k + p.len() <= l.len() implies !occurs_at(l, p, k) by {
        if occurs_at(l, p, k) {
            lemma_occ_byte(l, p, k, 0);
            lemma_occ_byte(l, p, k, 1);
            if p.len() >= 3 {
                lemma_occ_byte(l, p, k, 2);
            }
            if p.len() >= 4 {
                lemma_occ_byte(l, p, k, 3);
            }
        }
    }
}

/// Finding `p`, searching from `a`, in a literal piece `l` at `off`, at
/// offset `o` of the piece.
pub proof fn lemma_found_from(h: Seq<u8>, p: Seq<u8>, a: int, off: int, l: Seq<u8>, o: int)
    requires
        0 <= a <= off,
        off + l.len() <= h.len(),
        h.subrange(off, off + l.len()) == l,
        no_occ(h, p, a, off),
        occurs_at(l, p, o),
        forall|k: int| 0 <= k < o ==> !occurs_at(l, p, k),
    ensures
        find_from(h, p, a) == Some(off + o),
{
    assert(h.subrange(off + o, off + o + p.len()) =~= l.subrange(o, o + p.len()));
    assert forall|j: int| a <= j < off + o implies !occurs_at(h, p, j) by {
        if j >= off && occurs_at(h, p, j) {
            assert(l.subrange(j - off, j - off + p.len()) =~= h.subrange(j, j + p.len()));
            assert(occurs_at(l, p, j - off));
        }
    }
    lemma_find_from_is(h, p, a, off + o);
}

/// No occurrence of `p` starts in the first `o` positions of `l` when none of
/// them starts with the first (up to four) bytes of `p`.
pub proof fn lemma_free_upto(l: Seq<u8>, p: Seq<u8>, o: int)
    requires
        p.len() >= 2,
        forall|k: int|
            0 <= k < o && k + p.len() <= l.len() ==> (#[trigger] l[k] != p[0] || l[k + 1] != p[1]
                || (p.len() >= 3 && l[k + 2] != p[2]) || (p.len() >= 4 && l[k + 3] != p[3])),
    ensures
        forall|k: int| 0 <= k < o ==> !occurs_at(l, p, k),
{
    assert forall|k: int| 0 <= k < o implies !occurs_at(l, p, k) by {
        if occurs_at(l, p, k) {
            lemma_occ_byte(l, p, k, 0);
            lemma_occ_byte(l, p, k, 1);
            if p.len() >= 3 {
                lemma_occ_byte(l, p, k, 2);
            }
            if p.len() >= 4 {
                lemma_occ_byte(l, p, k, 3);
            }
        }
    }
}

/// The front of a sum of three.
pub proof fn lemma_front3(a: Seq<u8>, b: Seq<u8>, c: Seq<u8>)
    ensures
        (a + b + c).subrange(0, a.len() as int) == a,
{
    assert((a + b + c).subrange(0, a.len() as int) =~= a);
}

} // verus!
