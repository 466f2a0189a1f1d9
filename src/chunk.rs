use vstd::prelude::*;
use crate::byteseq::{copy_range, append_bytes};
use std::collections::HashMap;

verus! {

broadcast use vstd::std_specs::hash::group_hash_axioms;

/// Largest encoded TAK packet that travels in a single mesh packet.
pub const MAX_DATA_SIZE: usize = 200;

/// Bytes of payload in each chunk, leaving room for the chunk envelope.
pub const CHUNK_SIZE: usize = 180;

/// Most chunks that one payload may be split into.
pub const MAX_CHUNKS: u32 = 65535;

/// A partial reassembly older than this many milliseconds is dropped.
pub const CHUNK_TTL_MS: u64 = 60_000;

/// One piece of a payload too large for a single mesh packet.
#[derive(Clone, Debug, PartialEq, Eq)]
pub struct ChunkedPayload {
    /// Shared by every chunk of one payload
    pub payload_id: u32,
    /// Number of chunks of the payload
    pub chunk_count: u32,
    /// Position of this chunk, from 0
    pub chunk_index: u32,
    /// The bytes of this chunk
    pub payload_chunk: Vec<u8>,
}

/// Number of chunks for a payload of `n` bytes.
pub open spec fn chunk_count_of(n: nat) -> nat {
    (n + CHUNK_SIZE - 1) as nat / CHUNK_SIZE as nat
}

/// Chunk `i` of payload `p`.
pub open spec fn chunk_of(p: Seq<u8>, i: int) -> Seq<u8> {
    let e = (i + 1) * CHUNK_SIZE;
    p.subrange(i * CHUNK_SIZE, if e < p.len() { e } else { p.len() as int })
}

/// The bytes of `s[0]`, `s[1]`, ... one after the other.
pub open spec fn concat(s: Seq<Seq<u8>>) -> Seq<u8>
    decreases s.len(),
{
    if s.len() == 0 {
        Seq::empty()
    } else {
        concat(s.drop_last()) + s.last()
    }
}

/// The chunks of `p`, in index order.
pub open spec fn chunks_of(p: Seq<u8>) -> Seq<Seq<u8>> {
    Seq::new(chunk_count_of(p.len()), |i: int| chunk_of(p, i))
}

/// Splits `payload` into chunks of `CHUNK_SIZE` bytes (the last may be
/// shorter), numbered from 0, all carrying `payload_id`.
pub fn chunk_payload(payload: &[u8], payload_id: u32) -> (r: Vec<ChunkedPayload>)
    requires
        payload@.len() <= CHUNK_SIZE * MAX_CHUNKS,
    ensures
        r@.len() == chunk_count_of(payload@.len()),
        forall|i: int|
            0 <= i < r@.len() ==> {
                &&& (#[trigger] r@[i]).payload_id == payload_id
                &&& r@[i].chunk_count == r@.len()
                &&& r@[i].chunk_index == i
                &&& r@[i].payload_chunk@ == chunk_of(payload@, i)
            },
{
    let n = payload.len();
    let count: usize = (n + CHUNK_SIZE - 1) / CHUNK_SIZE;
    assert(count <= MAX_CHUNKS) by (nonlinear_arith)
        requires
            count == (n + 179) / 180,
            n <= 180 * 65535,
    ;
    let mut r: Vec<ChunkedPayload> = Vec::new();
    let mut i: usize = 0;
    while i < count
        invariant
            count == chunk_count_of(n as nat),
            count <= MAX_CHUNKS,
            n == payload@.len(),
            i <= count,
            r@.len() == i,
            forall|j: int|
                0 <= j < i ==> {
                    &&& (#[trigger] r@[j]).payload_id == payload_id
                    &&& r@[j].chunk_count == count
                    &&& r@[j].chunk_index == j
                    &&& r@[j].payload_chunk@ == chunk_of(payload@, j)
                },
        decreases count - i,
    {
        let a = i * CHUNK_SIZE;
        assert(a < n) by (nonlinear_arith)
            requires
                i < count,
                count == (n + 179) / 180,
                a == i * 180,
        ;
        let b = if a + CHUNK_SIZE < n {
            a + CHUNK_SIZE
        } else {
            n
        };
        let piece = copy_range(payload, a, b);
        r.push(
            ChunkedPayload {
                payload_id,
                chunk_count: count as u32,
                chunk_index: i as u32,
                payload_chunk: piece,
            },
        );
        i = i + 1;
    }
    r
}

proof fn lemma_concat_chunks_prefix(p: Seq<u8>, k: int)
    requires
        0 <= k <= chunk_count_of(p.len()),
    ensures
        concat(chunks_of(p).subrange(0, k)) == p.subrange(
            0,
            if k * CHUNK_SIZE < p.len() { k * CHUNK_SIZE } else { p.len() as int },
        ),
    decreases k,
{
    let cs = chunks_of(p).subrange(0, k);
    if k == 0 {
        assert(p.subrange(0, 0) =~= Seq::<u8>::empty());
    } else {
        lemma_concat_chunks_prefix(p, k - 1);
        assert(cs.drop_last() =~= chunks_of(p).subrange(0, k - 1));
        assert((k - 1) * CHUNK_SIZE < p.len()) by (nonlinear_arith)
            requires
                k <= (p.len() + 179) / 180,
                k >= 1,
        ;
        assert((k - 1) * 180 + 180 == k * 180) by (nonlinear_arith);
        let e = if k * CHUNK_SIZE < p.len() { k * CHUNK_SIZE } else { p.len() as int };
        assert(p.subrange(0, e) =~= p.subrange(0, (k - 1) * CHUNK_SIZE) + chunk_of(p, k - 1));
    }
}

/// Joining the chunks of a payload in index order gives the payload back.
pub proof fn lemma_chunks_concat(p: Seq<u8>)
    ensures
        concat(chunks_of(p)) == p,
{
    let k = chunk_count_of(p.len()) as int;
    lemma_concat_chunks_prefix(p, k);
    assert(chunks_of(p).subrange(0, k) =~= chunks_of(p));
    assert(k * CHUNK_SIZE >= p.len()) by (nonlinear_arith)
        requires
            k == (p.len() + 179) / 180,
    ;
    assert(p.subrange(0, p.len() as int) =~= p);
}

/// The abstract content of a chunk.
pub open spec fn chunk_view(c: &ChunkedPayload) -> (u32, u32, u32, Seq<u8>) {
    (c.payload_id, c.chunk_count, c.chunk_index, c.payload_chunk@)
}

/// A payload whose chunks are still arriving.
pub ghost struct PartialView {
    pub created: u64,
    pub slots: Seq<Option<Seq<u8>>>,
}

/// A payload whose chunks are still arriving: slot `i` holds chunk `i` once
/// it has come.
pub struct Partial {
    pub created_at: u64,
    pub slots: Vec<Option<Vec<u8>>>,
}

pub open spec fn slot_view(o: Option<Vec<u8>>) -> Option<Seq<u8>> {
    match o {
        Some(v) => Some(v@),
        None => None,
    }
}

impl View for Partial {
    type V = PartialView;

    open spec fn view(&self) -> PartialView {
        PartialView {
            created: self.created_at,
            slots: self.slots@.map_values(|o: Option<Vec<u8>>| slot_view(o)),
        }
    }
}

/// The table of payloads being reassembled from their chunks, keyed by
/// payload id.
pub struct Reassembler {
    partials: HashMap<u32, Partial>,
    /// The ids in the table, for sweeping it.
    ids: Vec<u32>,
}

impl View for Reassembler {
    type V = Map<u32, PartialView>;

    closed spec fn view(&self) -> Map<u32, PartialView> {
        self.partials@.map_values(|p: Partial| p@)
    }
}

/// The partial was created more than `CHUNK_TTL_MS` before `now`.
pub open spec fn expired(p: PartialView, now: u64) -> bool {
    now >= p.created && now - p.created > CHUNK_TTL_MS
}

/// The table without its expired partials.
pub open spec fn evict(t: Map<u32, PartialView>, now: u64) -> Map<u32, PartialView> {
    Map::new(|k: u32| t.contains_key(k) && !expired(t[k], now), |k: u32| t[k])
}

/// Every chunk of the partial has arrived.
pub open spec fn complete(slots: Seq<Option<Seq<u8>>>) -> bool {
    forall|i: int| 0 <= i < slots.len() ==> (#[trigger] slots[i]) is Some
}

/// The payload that complete slots hold, chunks in index order.
pub open spec fn assemble(slots: Seq<Option<Seq<u8>>>) -> Seq<u8> {
    concat(slots.map_values(|o: Option<Seq<u8>>| o->Some_0))
}

/// A chunk that can belong to a payload: an index below a count of at most
/// `MAX_CHUNKS`.
pub open spec fn chunk_ok(count: u32, index: u32) -> bool {
    0 < count <= MAX_CHUNKS && index < count
}

/// Slots for a payload of `count` chunks where only chunk `index` has arrived.
pub open spec fn first_slots(count: u32, index: u32, bytes: Seq<u8>) -> Seq<Option<Seq<u8>>> {
    Seq::new(count as nat, |i: int| if i == index { Some(bytes) } else { None })
}

/// What accepting one chunk at `now` does to the table `t`: expired partials
/// go first; then the chunk is stored (a chunk whose index is already there, or
/// whose count differs from its partial's, changes nothing); a partial that
/// becomes complete leaves the table and its payload comes out.
pub open spec fn step(t: Map<u32, PartialView>, c: (u32, u32, u32, Seq<u8>), now: u64) -> (
    Map<u32, PartialView>,
    Option<Seq<u8>>,
) {
    let t1 = evict(t, now);
    let (id, count, index, bytes) = c;
    if !chunk_ok(count, index) {
        (t1, None)
    } else if !t1.contains_key(id) {
        let slots = first_slots(count, index, bytes);
        if complete(slots) {
            (t1, Some(assemble(slots)))
        } else {
            (t1.insert(id, PartialView { created: now, slots }), None)
        }
    } else {
        let p = t1[id];
        if p.slots.len() != count || p.slots[index as int] is Some {
            (t1, None)
        } else {
            let slots = p.slots.update(index as int, Some(bytes));
            if complete(slots) {
                (t1.remove(id), Some(assemble(slots)))
            } else {
                (t1.insert(id, PartialView { slots, ..p }), None)
            }
        }
    }
}

impl Reassembler {
    /// The id list names exactly the payloads in the table, each once.
    pub closed spec fn wf(&self) -> bool {
        &&& self.ids@.no_duplicates()
        &&& forall|k: u32| self.partials@.contains_key(k) <==> #[trigger] self.ids@.contains(k)
    }

    /// An empty table.
    pub fn new() -> (r: Reassembler)
        ensures
            r.wf(),
            r@ == Map::<u32, PartialView>::empty(),
    {
        let r = Reassembler { partials: HashMap::new(), ids: Vec::new() };
        assert(r@ =~= Map::<u32, PartialView>::empty());
        r
    }

    /// Number of payloads being reassembled.
    pub fn pending(&self) -> (r: usize)
        requires
            self.wf(),
        ensures
            r == self@.dom().len(),
    {
        proof {
            lemma_ids_count(self);
        }
        self.ids.len()
    }

    fn evict_expired(&mut self, now: u64)
        requires
            old(self).wf(),
        ensures
            final(self).wf(),
            final(self)@ == evict(old(self)@, now),
    {
        let ghost orig = self@;
        let mut i: usize = 0;
        assert(self.ids@.subrange(0, self.ids@.len() as int) =~= self.ids@);
        while i < self.ids.len()
            invariant
                self.wf(),
                i <= self.ids@.len(),
                forall|k: u32|
                    #[trigger] self@.contains_key(k) <==> (orig.contains_key(k) && (
                    self.ids@.subrange(i as int, self.ids@.len() as int).contains(k) || !expired(
                        orig[k],
                        now,
                    ))),
                forall|k: u32| #[trigger] self@.contains_key(k) ==> self@[k] == orig[k],
            decreases self.ids@.len() - i,
        {
            let k = self.ids[i];
            let ghost ids0 = self.ids@;
            let ghost m0 = self@;
            assert(ids0.subrange(i as int, ids0.len() as int)[0] == k);
            assert(self.ids@[i as int] == k);
            assert(self.ids@.contains(k));
            assert(self.partials@.contains_key(k));
            let exp = match self.partials.get(&k) {
                Some(p) => now >= p.created_at && now - p.created_at > CHUNK_TTL_MS,
                None => false,
            };
            assert(m0.contains_key(k) && m0[k] == self.partials@[k]@);
            if exp {
                self.partials.remove(&k);
                self.ids.remove(i);
                proof {
                    assert(self.ids@ =~= ids0.remove(i as int));
                    assert(self.ids@.subrange(i as int, self.ids@.len() as int) =~= ids0.subrange(
                        i + 1,
                        ids0.len() as int,
                    ));
                    assert(self@ =~= m0.remove(k));
                    assert forall|j: u32| #[trigger] self.ids@.contains(j) <==> ids0.contains(j) && j != k by {
                        if self.ids@.contains(j) {
                            let x = choose|x: int| 0 <= x < self.ids@.len() && #[trigger] self.ids@[x] == j;
                            if x < i {
                                assert(ids0[x] == j);
                            } else {
                                assert(ids0[x + 1] == j);
                            }
                        }
                        if ids0.contains(j) && j != k {
                            let x = choose|x: int| 0 <= x < ids0.len() && #[trigger] ids0[x] == j;
                            if x < i {
                                assert(self.ids@[x] == j);
                            } else {
                                assert(x != i);
                                assert(self.ids@[x - 1] == j);
                            }
                        }
                    }
                    assert(!ids0.subrange(i + 1, ids0.len() as int).contains(k)) by {
                        if ids0.subrange(i + 1, ids0.len() as int).contains(k) {
                            let x = choose|x: int| 0 <= x < ids0.len() - i - 1 && #[trigger] ids0.subrange(i + 1, ids0.len() as int)[x] == k;
                            assert(ids0[x + i + 1] == ids0[i as int]);
                        }
                    }
                    assert forall|j: u32| #[trigger] ids0.subrange(i + 1, ids0.len() as int).contains(j) implies ids0.subrange(i as int, ids0.len() as int).contains(j) by {
                        if ids0.subrange(i + 1, ids0.len() as int).contains(j) {
                            let x = choose|x: int| 0 <= x < ids0.len() - i - 1 && #[trigger] ids0.subrange(i + 1, ids0.len() as int)[x] == j;
                            assert(ids0.subrange(i as int, ids0.len() as int)[x + 1] == j);
                        }
                    }
                    assert forall|j: u32| #[trigger] ids0.subrange(i as int, ids0.len() as int).contains(j) && j != k implies ids0.subrange(i + 1, ids0.len() as int).contains(j) by {
                        if ids0.subrange(i as int, ids0.len() as int).contains(j) && j != k {
                            let x = choose|x: int| 0 <= x < ids0.len() - i && #[trigger] ids0.subrange(i as int, ids0.len() as int)[x] == j;
                            assert(x != 0);
                            assert(ids0.subrange(i + 1, ids0.len() as int)[x - 1] == j);
                        }
                    }
                }
            } else {
                proof {
                    let t0 = ids0.subrange(i as int, ids0.len() as int);
                    let t1 = ids0.subrange(i + 1, ids0.len() as int);
                    assert forall|j: u32| #[trigger] t1.contains(j) implies t0.contains(j) by {
                        if t1.contains(j) {
                            let x = choose|x: int| 0 <= x < t1.len() && #[trigger] t1[x] == j;
                            assert(t0[x + 1] == j);
                        }
                    }
                    assert forall|j: u32| #[trigger] t0.contains(j) && j != k implies t1.contains(j) by {
                        if t0.contains(j) && j != k {
                            let x = choose|x: int| 0 <= x < t0.len() && #[trigger] t0[x] == j;
                            assert(x != 0);
                            assert(t1[x - 1] == j);
                        }
                    }
                }
                i = i + 1;
            }
        }
        proof {
            assert(self.ids@.subrange(i as int, self.ids@.len() as int) =~= Seq::<u32>::empty());
            assert(self@ =~= evict(orig, now));
        }
    }

    /// Accepts one chunk that arrived at `now` (milliseconds) and returns the
    /// payload that it completes, if any (see `step`). Afterwards no partial in
    /// the table is expired.
    pub fn accept_chunk(&mut self, chunk: ChunkedPayload, now: u64) -> (r: Option<Vec<u8>>)
        requires
            old(self).wf(),
        ensures
            final(self).wf(),
            (final(self)@, match r {
                Some(b) => Some(b@),
                None => None::<Seq<u8>>,
            }) == step(old(self)@, chunk_view(&chunk), now),
            forall|k: u32| #[trigger] final(self)@.contains_key(k) ==> !expired(final(self)@[k], now),
    {
        self.evict_expired(now);
        let ghost t1 = self@;
        let id = chunk.payload_id;
        let count = chunk.chunk_count;
        let index = chunk.chunk_index;
        let bytes = chunk.payload_chunk;
        let ghost bv = bytes@;
        if !(0 < count && count <= MAX_CHUNKS && index < count) {
            return None;
        }
        let ghost old_partials = self.partials@;
        let ghost old_ids = self.ids@;
        match self.partials.remove(&id) {
            None => {
                assert(!t1.contains_key(id));
                let mut slots: Vec<Option<Vec<u8>>> = Vec::new();
                let mut j: u32 = 0;
                while j < count
                    invariant
                        j <= count,
                        slots@.len() == j,
                        forall|t: int| 0 <= t < j ==> (#[trigger] slots@[t]) is None,
                    decreases count - j,
                {
                    slots.push(None);
                    j = j + 1;
                }
                slots.set(index as usize, Some(bytes));
                let p = Partial { created_at: now, slots };
                assert(p@.slots =~= first_slots(count, index, bv));
                if count == 1 {
                    proof {
                        assert(complete(p@.slots));
                        let vals = p@.slots.map_values(|o: Option<Seq<u8>>| o->Some_0);
                        assert(vals.len() == 1);
                        assert(vals[0] == bv);
                        assert(vals.drop_last() =~= Seq::<Seq<u8>>::empty());
                        assert(concat(vals.drop_last()) == Seq::<u8>::empty());
                        assert(concat(vals) =~= bv);
                        assert(self@ =~= t1);
                    }
                    let mut p = p;
                    let out = match p.slots.pop() {
                        Some(Some(b)) => b,
                        _ => Vec::new(),
                    };
                    return Some(out);
                }
                let ghost ids1 = self.ids@;
                let ghost p1 = self.partials@;
                proof {
                    let other: int = if index == 0 { 1 } else { 0 };
                    assert(p@.slots[other] is None);
                    assert(!p1.contains_key(id));
                    assert(!ids1.contains(id));
                }
                self.partials.insert(id, p);
                self.ids.push(id);
                proof {
                    assert(self@ =~= t1.insert(id, p@));
                    let ids2 = self.ids@;
                    assert(ids2 == ids1.push(id));
                    assert forall|k: u32| self.partials@.contains_key(k) <==> #[trigger] ids2.contains(k) by {
                        if ids2.contains(k) && k != id {
                            let x = choose|x: int| 0 <= x < ids2.len() && #[trigger] ids2[x] == k;
                            assert(x < ids1.len());
                            assert(ids1[x] == k);
                            assert(ids1.contains(k));
                        }
                        if k == id {
                            assert(ids2[ids2.len() - 1] == id);
                        }
                        if k != id && self.partials@.contains_key(k) {
                            assert(p1.contains_key(k));
                            assert(ids1.contains(k));
                            let x = choose|x: int| 0 <= x < ids1.len() && #[trigger] ids1[x] == k;
                            assert(ids2[x] == k);
                        }
                    }
                    assert forall|a: int, b: int| 0 <= a < b < ids2.len() implies ids2[a] != ids2[b] by {
                        if b == ids2.len() - 1 {
                            assert(ids1.contains(ids2[a]));
                        }
                    }
                }
                None
            },
            Some(p) => {
                let ghost pv = t1[id];
                assert(pv == p@);
                if p.slots.len() != count as usize {
                    self.partials.insert(id, p);
                    assert(self.partials@ =~= old_partials);
                    assert(self@ =~= t1);
                    return None;
                }
                if p.slots[index as usize].is_some() {
                    assert(p@.slots[index as int] == slot_view(p.slots@[index as int]));
                    self.partials.insert(id, p);
                    assert(self.partials@ =~= old_partials);
                    assert(self@ =~= t1);
                    return None;
                }
                let mut p = p;
                p.slots.set(index as usize, Some(bytes));
                let ghost nslots = pv.slots.update(index as int, Some(bv));
                assert(p@.slots =~= nslots);
                let done = all_present(&p.slots);
                if done {
                    let out = join_slots(&p.slots);
                    proof {
                        assert(self.ids@ == old_ids);
                        assert forall|k: u32| k != id implies (self.partials@.contains_key(k) <==> #[trigger] self.ids@.contains(k)) by {
                            assert(old_partials.contains_key(k) <==> old_ids.contains(k));
                        }
                    }
                    self.drop_id(id);
                    assert(self@ =~= t1.remove(id));
                    Some(out)
                } else {
                    self.partials.insert(id, p);
                    assert(self.partials@.dom() =~= old_partials.dom());
                    assert(self@ =~= t1.insert(id, PartialView { slots: nslots, ..pv }));
                    None
                }
            },
        }
    }

    /// Takes `id` out of the id list, once the table no longer holds it.
    fn drop_id(&mut self, id: u32)
        requires
            old(self).ids@.no_duplicates(),
            !old(self).partials@.contains_key(id),
            forall|k: u32| k != id ==> (old(self).partials@.contains_key(k) <==> #[trigger] old(self).ids@.contains(k)),
        ensures
            final(self).wf(),
            final(self).partials@ == old(self).partials@,
    {
        let ghost ids0 = self.ids@;
        let ghost p0 = self.partials@;
        let mut i: usize = 0;
        while i < self.ids.len()
            invariant
                self.ids@ == ids0,
                self.partials@ == p0,
                p0 == old(self).partials@,
                ids0.no_duplicates(),
                !p0.contains_key(id),
                forall|k: u32| k != id ==> (p0.contains_key(k) <==> #[trigger] ids0.contains(k)),
                forall|j: int| 0 <= j < i ==> self.ids@[j] != id,
            decreases self.ids@.len() - i,
        {
            if self.ids[i] == id {
                self.ids.remove(i);
                proof {
                    let ids1 = self.ids@;
                    assert(ids1 =~= ids0.remove(i as int));
                    assert forall|k: u32| p0.contains_key(k) <==> #[trigger] ids1.contains(k) by {
                        if ids1.contains(k) {
                            let x = choose|x: int| 0 <= x < ids1.len() && #[trigger] ids1[x] == k;
                            if x < i {
                                assert(ids0[x] == k);
                                assert(x != i);
                            } else {
                                assert(ids0[x + 1] == k);
                                assert(x + 1 != i);
                            }
                            assert(k != id);
                            assert(ids0.contains(k));
                        }
                        if p0.contains_key(k) {
                            assert(k != id);
                            assert(ids0.contains(k));
                            let x = choose|x: int| 0 <= x < ids0.len() && #[trigger] ids0[x] == k;
                            if x < i {
                                assert(ids1[x] == k);
                            } else {
                                assert(x != i);
                                assert(ids1[x - 1] == k);
                            }
                        }
                    }
                }
                return;
            }
            i = i + 1;
        }
        assert forall|k: u32| p0.contains_key(k) <==> #[trigger] ids0.contains(k) by {
            if k == id && ids0.contains(k) {
                let x = choose|x: int| 0 <= x < ids0.len() && #[trigger] ids0[x] == k;
                assert(self.ids@[x] != id);
            }
        }
    }
}

proof fn lemma_ids_count(r: &Reassembler)
    requires
        r.wf(),
    ensures
        r.ids@.len() == r@.dom().len(),
{
    r.ids@.unique_seq_to_set();
    assert(r.ids@.to_set() =~= r@.dom());
}

/// A received TAK payload that decodes as a chunk of a larger payload: more
/// than one chunk, and an index below the count.
pub open spec fn is_chunk(c: &ChunkedPayload) -> bool {
    c.chunk_count > 1 && c.chunk_index < c.chunk_count
}

impl Reassembler {
    /// Takes a TAK payload `raw` that arrived at `now`, together with its
    /// reading as a chunk, if it reads as one. A chunk (see `is_chunk`) goes to
    /// the table (see `step`) and yields the payload it completes, if any; any
    /// other payload is whole and comes back as it is, the table unchanged.
    pub fn receive_tak_payload(&mut self, chunk: Option<ChunkedPayload>, raw: Vec<u8>, now: u64) -> (r: Option<Vec<u8>>)
        requires
            old(self).wf(),
        ensures
            final(self).wf(),
            match chunk {
                Some(c) => if is_chunk(&c) {
                    (final(self)@, match r {
                        Some(b) => Some(b@),
                        None => None::<Seq<u8>>,
                    }) == step(old(self)@, chunk_view(&c), now)
                } else {
                    r matches Some(b) && b@ == raw@ && final(self)@ == old(self)@
                },
                None => r matches Some(b) && b@ == raw@ && final(self)@ == old(self)@,
            },
    {
        match chunk {
            Some(c) => {
                if c.chunk_count > 1 && c.chunk_index < c.chunk_count {
                    self.accept_chunk(c, now)
                } else {
                    Some(raw)
                }
            },
            None => Some(raw),
        }
    }
}

/// Whether every slot holds its chunk.
fn all_present(slots: &Vec<Option<Vec<u8>>>) -> (r: bool)
    ensures
        r == complete(slots@.map_values(|o: Option<Vec<u8>>| slot_view(o))),
{
    let ghost sv = slots@.map_values(|o: Option<Vec<u8>>| slot_view(o));
    let mut i: usize = 0;
    while i < slots.len()
        invariant
            i <= slots@.len(),
            sv == slots@.map_values(|o: Option<Vec<u8>>| slot_view(o)),
            forall|t: int| 0 <= t < i ==> (#[trigger] sv[t]) is Some,
        decreases slots@.len() - i,
    {
        if slots[i].is_none() {
            assert(sv[i as int] is None);
            return false;
        }
        i = i + 1;
    }
    true
}

/// The chunks of complete slots joined in index order.
fn join_slots(slots: &Vec<Option<Vec<u8>>>) -> (r: Vec<u8>)
    requires
        complete(slots@.map_values(|o: Option<Vec<u8>>| slot_view(o))),
    ensures
        r@ == assemble(slots@.map_values(|o: Option<Vec<u8>>| slot_view(o))),
{
    let ghost sv = slots@.map_values(|o: Option<Vec<u8>>| slot_view(o));
    let ghost vals = sv.map_values(|o: Option<Seq<u8>>| o->Some_0);
    let mut out: Vec<u8> = Vec::new();
    let mut i: usize = 0;
    assert(vals.subrange(0, 0) =~= Seq::<Seq<u8>>::empty());
    while i < slots.len()
        invariant
            i <= slots@.len(),
            sv == slots@.map_values(|o: Option<Vec<u8>>| slot_view(o)),
            vals == sv.map_values(|o: Option<Seq<u8>>| o->Some_0),
            complete(sv),
            out@ == concat(vals.subrange(0, i as int)),
        decreases slots@.len() - i,
    {
        assert(sv[i as int] is Some);
        match &slots[i] {
            Some(b) => {
                append_bytes(&mut out, b.as_slice());
            },
            None => {},
        }
        assert(vals.subrange(0, i + 1).drop_last() =~= vals.subrange(0, i as int));
        i = i + 1;
    }
    assert(vals.subrange(0, i as int) =~= vals);
    out
}

/// The slots of a payload with chunks `cs` once the chunks at the first `k`
/// positions of `order` have arrived.
pub open spec fn slots_after(cs: Seq<Seq<u8>>, order: Seq<int>, k: int) -> Seq<Option<Seq<u8>>> {
    Seq::new(cs.len(), |i: int| if order.subrange(0, k).contains(i) { Some(cs[i]) } else { None })
}

/// The table and the last output after the chunks `cs` of payload `id` arrive
/// at `now` in the order `order` (indices into `cs`), the first `k` of them,
/// starting from table `t`.
pub open spec fn feed(
    t: Map<u32, PartialView>,
    id: u32,
    cs: Seq<Seq<u8>>,
    order: Seq<int>,
    now: u64,
    k: int,
) -> (Map<u32, PartialView>, Option<Seq<u8>>)
    decreases k,
{
    if k <= 0 {
        (t, None)
    } else {
        step(
            feed(t, id, cs, order, now, k - 1).0,
            (id, cs.len() as u32, order[k - 1] as u32, cs[order[k - 1]]),
            now,
        )
    }
}

/// `order` lists each index below `n` exactly once.
pub open spec fn is_order(order: Seq<int>, n: int) -> bool {
    &&& order.len() == n
    &&& order.no_duplicates()
    &&& forall|j: int| 0 <= j < n ==> 0 <= #[trigger] order[j] < n
    &&& forall|i: int| 0 <= i < n ==> #[trigger] order.contains(i)
}

proof fn lemma_single_kept(id: u32, p: PartialView, now: u64)
    requires
        p.created == now,
    ensures
        evict(map![id => p], now) == map![id => p],
{
    assert(!expired(p, now));
    assert(evict(map![id => p], now) =~= map![id => p]);
}

proof fn lemma_feed_step(id: u32, cs: Seq<Seq<u8>>, order: Seq<int>, now: u64, k: int)
    requires
        0 < cs.len() <= MAX_CHUNKS,
        is_order(order, cs.len() as int),
        1 <= k < cs.len(),
    ensures
        feed(Map::empty(), id, cs, order, now, k) == (
            map![id => PartialView { created: now, slots: slots_after(cs, order, k) }],
            None::<Seq<u8>>,
        ),
    decreases k,
{
    let n = cs.len() as int;
    let c = (id, n as u32, order[k - 1] as u32, cs[order[k - 1]]);
    assert(0 <= order[k - 1] < n);
    assert((n as u32) as int == n);
    assert((order[k - 1] as u32) as int == order[k - 1]);
    assert(chunk_ok(n as u32, order[k - 1] as u32));
    assert(feed(Map::empty(), id, cs, order, now, k) == step(
        feed(Map::empty(), id, cs, order, now, k - 1).0,
        c,
        now,
    ));
    if k == 1 {
        assert(feed(Map::empty(), id, cs, order, now, 0).0 == Map::<u32, PartialView>::empty());
        let t1 = evict(Map::<u32, PartialView>::empty(), now);
        assert(t1 =~= Map::<u32, PartialView>::empty());
        let slots = first_slots(n as u32, order[0] as u32, cs[order[0]]);
        assert(slots =~= slots_after(cs, order, 1)) by {
            assert forall|i: int| 0 <= i < n implies slots[i] == slots_after(cs, order, 1)[i] by {
                if i == order[0] {
                    assert(order.subrange(0, 1)[0] == i);
                } else {
                    assert(!order.subrange(0, 1).contains(i));
                }
            }
        }
        let w = order[1];
        assert(!order.subrange(0, 1).contains(w)) by {
            if order.subrange(0, 1).contains(w) {
                assert(order.subrange(0, 1)[0] == w);
            }
        }
        assert(slots[w] is None);
        assert(!complete(slots));
        assert(t1.insert(id, PartialView { created: now, slots }) =~= map![
            id => PartialView { created: now, slots: slots_after(cs, order, 1) },
        ]);
    } else {
        lemma_feed_step(id, cs, order, now, k - 1);
        let p = PartialView { created: now, slots: slots_after(cs, order, k - 1) };
        let t = map![id => p];
        lemma_single_kept(id, p, now);
        let x = order[k - 1];
        assert(!order.subrange(0, k - 1).contains(x)) by {
            if order.subrange(0, k - 1).contains(x) {
                let j = choose|j: int| 0 <= j < k - 1 && #[trigger] order.subrange(0, k - 1)[j] == x;
                assert(order[j] == order[k - 1]);
            }
        }
        assert(p.slots[x] is None);
        let slots = p.slots.update(x, Some(cs[x]));
        assert(slots =~= slots_after(cs, order, k)) by {
            assert forall|i: int| 0 <= i < n implies slots[i] == slots_after(cs, order, k)[i] by {
                if order.subrange(0, k - 1).contains(i) {
                    let j = choose|j: int| 0 <= j < k - 1 && #[trigger] order.subrange(0, k - 1)[j] == i;
                    assert(order.subrange(0, k)[j] == i);
                }
                if order.subrange(0, k).contains(i) && i != x {
                    let j = choose|j: int| 0 <= j < k && #[trigger] order.subrange(0, k)[j] == i;
                    assert(order.subrange(0, k - 1)[j] == i);
                }
                if i == x {
                    assert(order.subrange(0, k)[k - 1] == i);
                }
            }
        }
        let w = order[k];
        assert(!order.subrange(0, k).contains(w)) by {
            if order.subrange(0, k).contains(w) {
                let j = choose|j: int| 0 <= j < k && #[trigger] order.subrange(0, k)[j] == w;
                assert(order[j] == order[k]);
            }
        }
        assert(slots[w] is None);
        assert(!complete(slots));
        assert(t.insert(id, PartialView { slots, ..p }) =~= map![
            id => PartialView { created: now, slots: slots_after(cs, order, k) },
        ]);
    }
}

/// Reassembly in any order: when the chunks of a payload arrive at an empty
/// table in any order, nothing comes out before the last one, which yields
/// the payload and leaves the table empty.
pub proof fn lemma_reassemble_any_order(p: Seq<u8>, id: u32, order: Seq<int>, now: u64)
    requires
        0 < p.len() <= CHUNK_SIZE * MAX_CHUNKS,
        is_order(order, chunk_count_of(p.len()) as int),
    ensures
        forall|k: int|
            0 <= k < chunk_count_of(p.len()) ==> (#[trigger] feed(
                Map::empty(),
                id,
                chunks_of(p),
                order,
                now,
                k,
            )).1 is None,
        feed(Map::empty(), id, chunks_of(p), order, now, chunk_count_of(p.len()) as int).1 == Some(p),
        feed(Map::empty(), id, chunks_of(p), order, now, chunk_count_of(p.len()) as int).0
            == Map::<u32, PartialView>::empty(),
{
    let cs = chunks_of(p);
    let n = cs.len() as int;
    assert(n >= 1 && n <= MAX_CHUNKS) by (nonlinear_arith)
        requires
            n == (p.len() + 179) / 180,
            0 < p.len() <= 180 * 65535,
    ;
    assert forall|k: int| 0 <= k < n implies (#[trigger] feed(Map::empty(), id, cs, order, now, k)).1 is None by {
        if k >= 1 {
            lemma_feed_step(id, cs, order, now, k);
        }
    }
    let x = order[n - 1];
    assert(0 <= x < n);
    let full = slots_after(cs, order, n);
    assert(forall|i: int| 0 <= i < n ==> full[i] == Some(cs[i])) by {
        assert(order.subrange(0, n) =~= order);
    }
    let vals = full.map_values(|o: Option<Seq<u8>>| o->Some_0);
    assert(vals =~= cs);
    lemma_chunks_concat(p);
    assert(assemble(full) == p);
    let c = (id, n as u32, x as u32, cs[x]);
    assert((n as u32) as int == n);
    assert((x as u32) as int == x);
    assert(chunk_ok(n as u32, x as u32));
    assert(feed(Map::empty(), id, cs, order, now, n) == step(
        feed(Map::empty(), id, cs, order, now, n - 1).0,
        c,
        now,
    ));
    if n == 1 {
        assert(feed(Map::empty(), id, cs, order, now, 0).0 == Map::<u32, PartialView>::empty());
        let t1 = evict(Map::<u32, PartialView>::empty(), now);
        assert(t1 =~= Map::<u32, PartialView>::empty());
        let slots = first_slots(1, x as u32, cs[x]);
        assert(x == 0);
        assert(slots =~= full) by {
            assert(order.subrange(0, 1)[0] == 0);
        }
        assert(complete(slots));
    } else {
        lemma_feed_step(id, cs, order, now, n - 1);
        let pv = PartialView { created: now, slots: slots_after(cs, order, n - 1) };
        let t = map![id => pv];
        lemma_single_kept(id, pv, now);
        assert(!order.subrange(0, n - 1).contains(x)) by {
            if order.subrange(0, n - 1).contains(x) {
                let j = choose|j: int| 0 <= j < n - 1 && #[trigger] order.subrange(0, n - 1)[j] == x;
                assert(order[j] == order[n - 1]);
            }
        }
        assert(pv.slots[x] is None);
        let slots = pv.slots.update(x, Some(cs[x]));
        assert(slots =~= full) by {
            assert forall|i: int| 0 <= i < n implies slots[i] == full[i] by {
                if i != x {
                    assert(order.contains(i));
                    let j = choose|j: int| 0 <= j < n && #[trigger] order[j] == i;
                    assert(j != n - 1);
                    assert(order.subrange(0, n - 1)[j] == i);
                }
            }
        }
        assert(complete(slots));
        assert(t.remove(id) =~= Map::<u32, PartialView>::empty());
    }
}

} // verus!
