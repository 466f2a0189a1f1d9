use vstd::prelude::*;

verus! {

/// Unique client identifier.
pub type ClientId = u64;

/// Capacity of each client's outbound queue.
pub const OUTBOUND_QUEUE_CAPACITY: usize = 100;

/// Hands out client identifiers: each is one more than the last, from 1, and
/// none is given twice.
pub struct ClientIds {
    pub next: u64,
}

/// One allocation from a counter at `next`: the identifier and the new counter.
pub open spec fn issue(next: u64) -> (u64, u64) {
    (next, (next + 1) as u64)
}

impl ClientIds {
    /// A counter whose first identifier is 1.
    pub fn new() -> (r: ClientIds)
        ensures
            r.next == 1,
    {
        ClientIds { next: 1 }
    }

    /// The next identifier.
    pub fn next_client_id(&mut self) -> (r: ClientId)
        requires
            old(self).next < u64::MAX,
        ensures
            (r, final(self).next) == issue(old(self).next),
    {
        let id = self.next;
        self.next = self.next + 1;
        id
    }
}

/// Two successive allocations give strictly increasing identifiers.
pub proof fn lemma_ids_increase(next: u64)
    requires
        next < u64::MAX - 1,
    ensures
        issue(next).0 < issue(issue(next).1).0,
{
}

/// Whether a new client may be accepted while `client_count` are connected:
/// only below `max_clients`; otherwise the accept waits for a disconnect.
pub fn admits(client_count: usize, max_clients: usize) -> (r: bool)
    ensures
        r == (client_count < max_clients),
{
    client_count < max_clients
}

/// Server statistics: connected clients and routed messages.
#[derive(Clone, Copy, Debug, PartialEq, Eq, Structural)]
pub struct ServerStats {
    pub client_count: usize,
    pub total_messages: u64,
}

/// The registry of connected clients, in order of registration, with the
/// count of routed messages.
pub struct CotRouter {
    clients: Vec<ClientId>,
    debug: bool,
    total_messages: u64,
}

impl View for CotRouter {
    type V = Seq<ClientId>;

    closed spec fn view(&self) -> Seq<ClientId> {
        self.clients@
    }
}

/// `s` without the occurrences of `x`, order kept.
pub open spec fn without(s: Seq<ClientId>, x: ClientId) -> Seq<ClientId>
    decreases s.len(),
{
    if s.len() == 0 {
        s
    } else if s.last() == x {
        without(s.drop_last(), x)
    } else {
        without(s.drop_last(), x).push(s.last())
    }
}

/// The clients that a message from `from` goes to: every registered client
/// other than `from`, in registration order.
pub open spec fn targets(clients: Seq<ClientId>, from: ClientId) -> Seq<ClientId> {
    without(clients, from)
}

proof fn lemma_without(s: Seq<ClientId>, x: ClientId)
    ensures
        forall|i: int| 0 <= i < without(s, x).len() ==> #[trigger] without(s, x)[i] != x,
        forall|y: ClientId| y != x ==> (s.contains(y) <==> #[trigger] without(s, x).contains(y)),
        forall|y: ClientId| #[trigger] without(s, x).contains(y) ==> s.contains(y),
        s.no_duplicates() ==> without(s, x).no_duplicates(),
    decreases s.len(),
{
    if s.len() > 0 {
        let d = s.drop_last();
        lemma_without(d, x);
        let w = without(s, x);
        let wd = without(d, x);
        assert forall|y: ClientId| y != x implies (s.contains(y) <==> w.contains(y)) by {
            if s.contains(y) {
                let i = choose|i: int| 0 <= i < s.len() && s[i] == y;
                if i < s.len() - 1 {
                    assert(d[i] == y);
                    assert(wd.contains(y));
                    let j = choose|j: int| 0 <= j < wd.len() && wd[j] == y;
                    if s.last() != x {
                        assert(w[j] == y);
                    }
                } else {
                    assert(w[w.len() - 1] == y);
                }
            }
            if w.contains(y) {
                let j = choose|j: int| 0 <= j < w.len() && w[j] == y;
                if s.last() != x && j == w.len() - 1 {
                    assert(s[s.len() - 1] == y);
                } else {
                    assert(wd[j] == y);
                    assert(wd.contains(y));
                    assert(d.contains(y));
                    let i = choose|i: int| 0 <= i < d.len() && d[i] == y;
                    assert(s[i] == y);
                }
            }
        }
        assert forall|y: ClientId| #[trigger] w.contains(y) implies s.contains(y) by {
            if y == x {
                let j = choose|j: int| 0 <= j < w.len() && w[j] == y;
                if s.last() != x && j == w.len() - 1 {
                } else {
                    assert(wd[j] == y);
                }
            }
        }
        if s.no_duplicates() {
            assert(d.no_duplicates());
            if s.last() != x {
                assert(!d.contains(s.last()));
                assert(!wd.contains(s.last()));
                assert forall|a: int, b: int| 0 <= a < b < w.len() implies w[a] != w[b] by {
                    if b == w.len() - 1 {
                        assert(wd.contains(w[a]));
                    }
                }
            }
        }
    }
}

proof fn lemma_without_absent(s: Seq<ClientId>, x: ClientId)
    requires
        !s.contains(x),
    ensures
        without(s, x) == s,
    decreases s.len(),
{
    if s.len() > 0 {
        let d = s.drop_last();
        assert(!d.contains(x)) by {
            if d.contains(x) {
                let i = choose|i: int| 0 <= i < d.len() && d[i] == x;
                assert(s[i] == x);
            }
        }
        lemma_without_absent(d, x);
        assert(s.last() != x) by {
            assert(s[s.len() - 1] == s.last());
        }
        assert(d.push(s.last()) =~= s);
    }
}

proof fn lemma_without_unique(s: Seq<ClientId>, x: ClientId, i: int)
    requires
        s.no_duplicates(),
        0 <= i < s.len(),
        s[i] == x,
    ensures
        without(s, x) == s.remove(i),
    decreases s.len(),
{
    let d = s.drop_last();
    if i == s.len() - 1 {
        assert(!d.contains(x)) by {
            if d.contains(x) {
                let j = choose|j: int| 0 <= j < d.len() && d[j] == x;
                assert(s[j] == s[i]);
            }
        }
        lemma_without_absent(d, x);
        assert(s.remove(i) =~= d);
    } else {
        assert(d.no_duplicates());
        lemma_without_unique(d, x, i);
        assert(s.last() != x) by {
            assert(s[s.len() - 1] != s[i]);
        }
        assert(s.remove(i) =~= d.remove(i).push(s.last()));
    }
}

/// Fan-out: among registered clients, a message from `from` goes to each of
/// the others exactly once and never back to `from`.
pub proof fn lemma_fan_out(clients: Seq<ClientId>, from: ClientId)
    requires
        clients.no_duplicates(),
    ensures
        targets(clients, from).no_duplicates(),
        !targets(clients, from).contains(from),
        forall|c: ClientId| c != from && clients.contains(c) ==> #[trigger] targets(clients, from).contains(c),
        forall|c: ClientId| #[trigger] targets(clients, from).contains(c) ==> clients.contains(c) && c != from,
{
    lemma_without(clients, from);
    let t = targets(clients, from);
    assert(!t.contains(from)) by {
        if t.contains(from) {
            let j = choose|j: int| 0 <= j < t.len() && t[j] == from;
        }
    }
}

impl CotRouter {
    /// Registered clients are distinct.
    pub closed spec fn wf(&self) -> bool {
        self.clients@.no_duplicates()
    }

    /// Whether every routed message is logged.
    pub closed spec fn logs_messages(&self) -> bool {
        self.debug
    }

    /// Number of messages routed so far (wrapping at `u64::MAX`).
    pub closed spec fn routed(&self) -> u64 {
        self.total_messages
    }

    /// An empty registry.
    pub fn new(debug: bool) -> (r: CotRouter)
        ensures
            r.wf(),
            r@ == Seq::<ClientId>::empty(),
            r.routed() == 0,
            r.logs_messages() == debug,
    {
        let r = CotRouter { clients: Vec::new(), debug, total_messages: 0 };
        assert(r.clients@ =~= Seq::<ClientId>::empty());
        r
    }

    fn position(&self, id: ClientId) -> (r: Option<usize>)
        ensures
            match r {
                Some(i) => i < self@.len() && self@[i as int] == id,
                None => !self@.contains(id),
            },
    {
        let mut i: usize = 0;
        while i < self.clients.len()
            invariant
                i <= self.clients@.len(),
                forall|j: int| 0 <= j < i ==> self.clients@[j] != id,
            decreases self.clients@.len() - i,
        {
            if self.clients[i] == id {
                return Some(i);
            }
            i = i + 1;
        }
        None
    }

    /// Registers a client; one already registered stays where it is.
    pub fn register_client(&mut self, client_id: ClientId)
        requires
            old(self).wf(),
        ensures
            final(self).wf(),
            final(self).routed() == old(self).routed(),
            old(self)@.contains(client_id) ==> final(self)@ == old(self)@,
            !old(self)@.contains(client_id) ==> final(self)@ == old(self)@.push(client_id),
    {
        if self.position(client_id).is_none() {
            self.clients.push(client_id);
            assert forall|a: int, b: int|
                0 <= a < b < self.clients@.len() implies self.clients@[a] != self.clients@[b] by {
                if b == self.clients@.len() - 1 {
                    assert(old(self).clients@.contains(self.clients@[a]) || a == b);
                }
            }
        }
    }

    /// Unregisters a client; an unknown one changes nothing.
    pub fn unregister_client(&mut self, client_id: ClientId)
        requires
            old(self).wf(),
        ensures
            final(self).wf(),
            final(self).routed() == old(self).routed(),
            final(self)@ == without(old(self)@, client_id),
    {
        let ghost s = self@;
        match self.position(client_id) {
            Some(i) => {
                self.clients.remove(i);
                proof {
                    lemma_without_unique(s, client_id, i as int);
                    assert(self@ =~= s.remove(i as int));
                }
            },
            None => {
                proof {
                    lemma_without_absent(s, client_id);
                }
            },
        }
        proof {
            lemma_without(s, client_id);
        }
    }

    /// Routes one message from `from_client_id`: counts it and returns the
    /// clients to deliver it to, every registered client but the sender, each
    /// once.
    pub fn route_message(&mut self, from_client_id: ClientId) -> (r: Vec<ClientId>)
        requires
            old(self).wf(),
        ensures
            final(self).wf(),
            final(self)@ == old(self)@,
            final(self).routed() == old(self).routed().wrapping_add(1),
            r@ == targets(old(self)@, from_client_id),
            r@.no_duplicates(),
            !r@.contains(from_client_id),
            forall|c: ClientId| c != from_client_id && old(self)@.contains(c) ==> #[trigger] r@.contains(c),
    {
        proof {
            lemma_fan_out(self@, from_client_id);
        }
        self.total_messages = self.total_messages.wrapping_add(1);
        let mut r: Vec<ClientId> = Vec::new();
        let mut i: usize = 0;
        while i < self.clients.len()
            invariant
                i <= self.clients@.len(),
                r@ == without(self.clients@.subrange(0, i as int), from_client_id),
            decreases self.clients@.len() - i,
        {
            let c = self.clients[i];
            proof {
                let s = self.clients@.subrange(0, i + 1);
                assert(s.drop_last() =~= self.clients@.subrange(0, i as int));
            }
            if c != from_client_id {
                r.push(c);
            }
            i = i + 1;
        }
        assert(self.clients@.subrange(0, i as int) =~= self.clients@);
        r
    }

    /// Whether every routed message is logged.
    pub fn is_debug(&self) -> (r: bool)
        ensures
            r == self.logs_messages(),
    {
        self.debug
    }

    /// The statistics of the registry.
    pub fn stats(&self) -> (r: ServerStats)
        ensures
            r.client_count == self@.len(),
            r.total_messages == self.routed(),
    {
        ServerStats { client_count: self.clients.len(), total_messages: self.total_messages }
    }

    /// Number of registered clients.
    pub fn client_count(&self) -> (r: usize)
        ensures
            r == self@.len(),
    {
        self.clients.len()
    }

    /// Number of messages routed so far.
    pub fn total_messages(&self) -> (r: u64)
        ensures
            r == self.routed(),
    {
        self.total_messages
    }
}

} // verus!
