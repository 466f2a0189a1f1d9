use vstd::prelude::*;

verus! {

/// `pat` occurs in `h` starting at index `i`.
pub open spec fn occurs_at(h: Seq<u8>, pat: Seq<u8>, i: int) -> bool {
    0 <= i && i + pat.len() <= h.len() && h.subrange(i, i + pat.len()) == pat
}

/// The first index at or after `k` where `pat` occurs in `h`.
pub open spec fn find_from(h: Seq<u8>, pat: Seq<u8>, k: int) -> Option<int>
    decreases h.len() + 1 - k,
{
    if k < 0 || k + pat.len() > h.len() {
        None
    } else if occurs_at(h, pat, k) {
        Some(k)
    } else {
        find_from(h, pat, k + 1)
    }
}

/// The first index where `pat` occurs in `h`.
pub open spec fn find(h: Seq<u8>, pat: Seq<u8>) -> Option<int> {
    find_from(h, pat, 0)
}

/// What `find_from` returns is an occurrence with none before it.
pub proof fn lemma_find_from(h: Seq<u8>, pat: Seq<u8>, k: int)
    requires
        0 <= k,
    ensures
        match find_from(h, pat, k) {
            Some(i) => k <= i && occurs_at(h, pat, i) && forall|j: int|
                k <= j < i ==> !occurs_at(h, pat, j),
            None => forall|j: int| k <= j ==> !occurs_at(h, pat, j),
        },
    decreases h.len() + 1 - k,
{
    if k + pat.len() > h.len() {
    } else if occurs_at(h, pat, k) {
    } else {
        lemma_find_from(h, pat, k + 1);
    }
}

/// An occurrence at `i` with none in `[k, i)` is what `find_from` returns.
pub proof fn lemma_find_from_is(h: Seq<u8>, pat: Seq<u8>, k: int, i: int)
    requires
        0 <= k <= i,
        occurs_at(h, pat, i),
        forall|j: int| k <= j < i ==> !occurs_at(h, pat, j),
    ensures
        find_from(h, pat, k) == Some(i),
    decreases i - k,
{
    if k < i {
        lemma_find_from_is(h, pat, k + 1, i);
    }
}

/// No occurrence at or after `k`: `find_from` finds nothing.
pub proof fn lemma_find_from_none(h: Seq<u8>, pat: Seq<u8>, k: int)
    requires
        0 <= k,
        forall|j: int| k <= j ==> !occurs_at(h, pat, j),
    ensures
        find_from(h, pat, k).is_none(),
    decreases h.len() + 1 - k,
{
    if k + pat.len() <= h.len() {
        lemma_find_from_none(h, pat, k + 1);
    }
}

/// Whether `pat` occurs in `h` at `i`, for an `i` that leaves room for it.
fn matches_at(h: &[u8], pat: &[u8], i: usize) -> (r: bool)
    requires
        i + pat@.len() <= h@.len(),
    ensures
        r == occurs_at(h@, pat@, i as int),
{
    let n: usize = h.len();
    let mut j: usize = 0;
    while j < pat.len()
        invariant
            n == h@.len(),
            j <= pat@.len(),
            i + pat@.len() <= h@.len(),
            forall|t: int| 0 <= t < j ==> h@[i + t] == pat@[t],
        decreases pat@.len() - j,
    {
        assert(i + j < h@.len());
        if h[i + j] != pat[j] {
            assert(h@.subrange(i as int, i + pat@.len())[j as int] != pat@[j as int]);
            return false;
        }
        j = j + 1;
    }
    assert(h@.subrange(i as int, i + pat@.len()) =~= pat@);
    true
}

/// The first index at or after `start` where `pat` occurs in `h`.
pub fn find_bytes_from(h: &[u8], pat: &[u8], start: usize) -> (r: Option<usize>)
    requires
        pat@.len() > 0,
    ensures
        match r {
            Some(i) => find_from(h@, pat@, start as int) == Some(i as int),
            None => find_from(h@, pat@, start as int) is None,
        },
{
    if pat.len() > h.len() {
        proof {
            assert forall|j: int| start <= j implies !occurs_at(h@, pat@, j) by {}
            lemma_find_from_none(h@, pat@, start as int);
        }
        return None;
    }
    let mut i: usize = start;
    while i < h.len() && h.len() - i >= pat.len()
        invariant
            start <= i,
            forall|j: int| start <= j < i ==> !occurs_at(h@, pat@, j),
        decreases h@.len() - i,
    {
        if matches_at(h, pat, i) {
            proof {
                lemma_find_from_is(h@, pat@, start as int, i as int);
            }
            return Some(i);
        }
        i = i + 1;
    }
    proof {
        assert forall|j: int| start <= j implies !occurs_at(h@, pat@, j) by {
            if j < i {
            }
        }
        lemma_find_from_none(h@, pat@, start as int);
    }
    None
}

/// The bytes `h[a..b]` as a vector of their own.
pub fn copy_range(h: &[u8], a: usize, b: usize) -> (r: Vec<u8>)
    requires
        a <= b <= h@.len(),
    ensures
        r@ == h@.subrange(a as int, b as int),
{
    let mut r: Vec<u8> = Vec::new();
    let mut i: usize = a;
    while i < b
        invariant
            a <= i <= b <= h@.len(),
            r@ == h@.subrange(a as int, i as int),
        decreases b - i,
    {
        r.push(h[i]);
        i = i + 1;
        assert(r@ =~= h@.subrange(a as int, i as int));
    }
    r
}

/// Appends every byte of `s` to `v`.
pub fn append_bytes(v: &mut Vec<u8>, s: &[u8])
    ensures
        final(v)@ == old(v)@ + s@,
{
    let ghost v0 = v@;
    let mut i: usize = 0;
    while i < s.len()
        invariant
            i <= s@.len(),
            v@ == v0 + s@.subrange(0, i as int),
        decreases s@.len() - i,
    {
        v.push(s[i]);
        i = i + 1;
        assert(v@ =~= v0 + s@.subrange(0, i as int));
    }
    assert(s@.subrange(0, s@.len() as int) =~= s@);
}

} // verus!
