use vstd::prelude::*;
use crate::byteseq::{find, find_bytes_from, copy_range, append_bytes, lemma_find_from};
use crate::cot::{INSTANT_RANGE_MS, attribute_value, extract_attribute, string_from_utf8, text_of, now_millis};
use crate::router::ClientId;
use crate::xml_text::{event_close, name_callsign, name_uid, push_event_close, push_name_callsign, push_name_uid};

verus! {

/// What the relay knows of one connected client.
#[derive(Clone, Debug)]
pub struct ClientInfo {
    pub id: ClientId,
    /// Peer address, as text
    pub addr: String,
    /// Callsign learned from the first event that carries one
    pub callsign: Option<String>,
    /// UID learned from the first event that carries one
    pub uid: Option<String>,
    /// When the client connected, in milliseconds since the epoch
    pub connected_at: i64,
    pub messages_sent: u64,
    pub messages_received: u64,
}

pub open spec fn opt_text(o: Option<String>) -> Option<Seq<char>> {
    match o {
        Some(s) => Some(s@),
        None => None,
    }
}

impl ClientInfo {
    /// A client that connected now, with nothing learned or counted yet.
    pub fn new(id: ClientId, addr: &str) -> (r: ClientInfo)
        ensures
            r.id == id,
            r.addr@ == addr@,
            r.callsign is None,
            r.uid is None,
            r.messages_sent == 0,
            r.messages_received == 0,
            -INSTANT_RANGE_MS <= r.connected_at <= INSTANT_RANGE_MS,
    {
        ClientInfo {
            id,
            addr: addr.to_owned(),
            callsign: None,
            uid: None,
            connected_at: now_millis(),
            messages_sent: 0,
            messages_received: 0,
        }
    }

    /// Counts one message written to the client.
    pub fn increment_sent(&mut self)
        ensures
            final(self).messages_sent == old(self).messages_sent.wrapping_add(1),
            final(self).addr == old(self).addr,
            final(self).connected_at == old(self).connected_at,
            final(self).uid == old(self).uid,
            final(self).callsign == old(self).callsign,
            final(self).messages_received == old(self).messages_received,
            final(self).id == old(self).id,
    {
        self.messages_sent = self.messages_sent.wrapping_add(1);
    }

    /// Counts one message read from the client.
    pub fn increment_received(&mut self)
        ensures
            final(self).messages_received == old(self).messages_received.wrapping_add(1),
            final(self).addr == old(self).addr,
            final(self).connected_at == old(self).connected_at,
            final(self).uid == old(self).uid,
            final(self).callsign == old(self).callsign,
            final(self).messages_sent == old(self).messages_sent,
            final(self).id == old(self).id,
    {
        self.messages_received = self.messages_received.wrapping_add(1);
    }

    pub fn get_sent(&self) -> (r: u64)
        ensures
            r == self.messages_sent,
    {
        self.messages_sent
    }

    pub fn get_received(&self) -> (r: u64)
        ensures
            r == self.messages_received,
    {
        self.messages_received
    }
}

/// The first complete event at the front of `b` (up to and including the
/// first `</event>`) and what follows it.
pub open spec fn split_event(b: Seq<u8>) -> Option<(Seq<u8>, Seq<u8>)> {
    match find(b, event_close()) {
        Some(p) => if 0 <= p && p + 8 <= b.len() {
            Some((b.subrange(0, p + 8), b.subrange(p + 8, b.len() as int)))
        } else {
            None
        },
        None => None,
    }
}

/// Takes the first complete event out of `buffer`, if there is one.
pub fn extract_complete_message(buffer: &mut Vec<u8>) -> (r: Option<Vec<u8>>)
    ensures
        match split_event(old(buffer)@) {
            Some((m, rest)) => r matches Some(v) && v@ == m && final(buffer)@ == rest,
            None => r is None && final(buffer)@ == old(buffer)@,
        },
{
    let mut pat: Vec<u8> = Vec::new();
    push_event_close(&mut pat);
    assert(pat@ =~= event_close());
    let n = buffer.len();
    match find_bytes_from(buffer.as_slice(), pat.as_slice(), 0) {
        Some(p) => {
            proof {
                lemma_find_from(buffer@, pat@, 0);
            }
            let m = copy_range(buffer.as_slice(), 0, p + 8);
            let rest = copy_range(buffer.as_slice(), p + 8, n);
            *buffer = rest;
            Some(m)
        },
        None => None,
    }
}

/// What an event teaches about a client: the attribute `name`, when the
/// client does not know it yet.
pub open spec fn learn(known: Option<Seq<char>>, event: Seq<u8>, name: Seq<u8>) -> Option<Seq<char>> {
    match known {
        Some(k) => Some(k),
        None => match attribute_value(event, name) {
            Some(b) => text_of(b),
            None => None,
        },
    }
}

fn learn_attr(known: &mut Option<String>, event: &[u8], name: &[u8])
    ensures
        opt_text(*final(known)) == learn(opt_text(*old(known)), event@, name@),
{
    if known.is_none() {
        match extract_attribute(event, name) {
            Ok(b) => {
                *known = string_from_utf8(b.as_slice());
            },
            Err(_) => {},
        }
    }
}

/// Learns the client's uid and callsign from `cot_xml`, each only if not
/// already known.
pub fn update_info_from_cot(info: &mut ClientInfo, cot_xml: &[u8])
    ensures
        opt_text(final(info).uid) == learn(opt_text(old(info).uid), cot_xml@, name_uid()),
        opt_text(final(info).callsign) == learn(
            opt_text(old(info).callsign),
            cot_xml@,
            name_callsign(),
        ),
        final(info).id == old(info).id,
        final(info).addr == old(info).addr,
        final(info).connected_at == old(info).connected_at,
        final(info).messages_sent == old(info).messages_sent,
        final(info).messages_received == old(info).messages_received,
{
    let mut u: Vec<u8> = Vec::new();
    push_name_uid(&mut u);
    assert(u@ =~= name_uid());
    let mut c: Vec<u8> = Vec::new();
    push_name_callsign(&mut c);
    assert(c@ =~= name_callsign());
    learn_attr(&mut info.uid, cot_xml, u.as_slice());
    learn_attr(&mut info.callsign, cot_xml, c.as_slice());
}

/// The complete events at the front of `b`, in order, and the bytes left.
pub open spec fn all_events(b: Seq<u8>) -> (Seq<Seq<u8>>, Seq<u8>)
    decreases b.len(),
{
    match split_event(b) {
        Some((m, rest)) => if rest.len() < b.len() {
            let (ms, r) = all_events(rest);
            (seq![m] + ms, r)
        } else {
            (Seq::empty(), b)
        },
        None => (Seq::empty(), b),
    }
}

/// What a client is known as after the events `evs`, first event first.
pub open spec fn learn_all(known: Option<Seq<char>>, evs: Seq<Seq<u8>>, name: Seq<u8>) -> Option<Seq<char>>
    decreases evs.len(),
{
    if evs.len() == 0 {
        known
    } else {
        learn(learn_all(known, evs.drop_last(), name), evs.last(), name)
    }
}

/// `a + k`, wrapping at `u64::MAX`.
pub open spec fn add_wrapped(a: u64, k: nat) -> u64 {
    ((a as nat + k) % 0x1_0000_0000_0000_0000nat) as u64
}

proof fn lemma_add_wrapped_step(a: u64, k: nat)
    ensures
        add_wrapped(a, k).wrapping_add(1) == add_wrapped(a, k + 1),
{
    let m = 0x1_0000_0000_0000_0000nat;
    let x = add_wrapped(a, k);
    assert(x as nat == (a as nat + k) % m);
    vstd::arithmetic::div_mod::lemma_add_mod_noop((a as nat + k) as int, 1, m as int);
    vstd::arithmetic::div_mod::lemma_small_mod(1, m);
    if x as nat + 1 < m {
        vstd::arithmetic::div_mod::lemma_small_mod(x as nat + 1, m);
    } else {
        assert(x as nat + 1 == m);
        vstd::arithmetic::div_mod::lemma_mod_self_0(m as int);
    }
}

/// The reading side of one client connection: what is known of the client
/// and the bytes of an event not yet complete.
pub struct ClientSession {
    pub info: ClientInfo,
    pub buffer: Vec<u8>,
}

impl ClientSession {
    /// A session for a client that has sent nothing yet.
    pub fn new(info: ClientInfo) -> (r: ClientSession)
        ensures
            r.info == info,
            r.buffer@ == Seq::<u8>::empty(),
    {
        ClientSession { info, buffer: Vec::new() }
    }

    /// Takes bytes read from the client and returns the events that they
    /// complete, in order, each to be routed; the client's uid and callsign
    /// are learned from them and each is counted as received.
    pub fn on_data(&mut self, data: &[u8]) -> (r: Vec<Vec<u8>>)
        ensures
            r@.map_values(|v: Vec<u8>| v@) == all_events(old(self).buffer@ + data@).0,
            final(self).buffer@ == all_events(old(self).buffer@ + data@).1,
            final(self).info.messages_received == add_wrapped(old(self).info.messages_received, r@.len()),
            final(self).info.messages_sent == old(self).info.messages_sent,
            final(self).info.id == old(self).info.id,
            final(self).info.addr == old(self).info.addr,
            final(self).info.connected_at == old(self).info.connected_at,
            opt_text(final(self).info.uid) == learn_all(
                opt_text(old(self).info.uid),
                all_events(old(self).buffer@ + data@).0,
                name_uid(),
            ),
            opt_text(final(self).info.callsign) == learn_all(
                opt_text(old(self).info.callsign),
                all_events(old(self).buffer@ + data@).0,
                name_callsign(),
            ),
    {
        append_bytes(&mut self.buffer, data);
        let ghost all = self.buffer@;
        let mut out: Vec<Vec<u8>> = Vec::new();
        let ghost uid0 = opt_text(self.info.uid);
        let ghost cs0 = opt_text(self.info.callsign);
        let ghost rc0 = self.info.messages_received;
        assert(out@.map_values(|v: Vec<u8>| v@) + all_events(self.buffer@).0 =~= all_events(all).0);
        loop
            invariant
                all == old(self).buffer@ + data@,
                rc0 == old(self).info.messages_received,
                uid0 == opt_text(old(self).info.uid),
                cs0 == opt_text(old(self).info.callsign),
                out@.map_values(|v: Vec<u8>| v@) + all_events(self.buffer@).0 == all_events(all).0,
                all_events(self.buffer@).1 == all_events(all).1,
                self.info.messages_received == add_wrapped(rc0, out@.len()),
                self.info.messages_sent == old(self).info.messages_sent,
                self.info.id == old(self).info.id,
                self.info.addr == old(self).info.addr,
                self.info.connected_at == old(self).info.connected_at,
                opt_text(self.info.uid) == learn_all(uid0, out@.map_values(|v: Vec<u8>| v@), name_uid()),
                opt_text(self.info.callsign) == learn_all(cs0, out@.map_values(|v: Vec<u8>| v@), name_callsign()),
            decreases self.buffer@.len(),
        {
            let ghost before = self.buffer@;
            let ghost outv = out@.map_values(|v: Vec<u8>| v@);
            match extract_complete_message(&mut self.buffer) {
                Some(m) => {
                    update_info_from_cot(&mut self.info, m.as_slice());
                    proof {
                        lemma_add_wrapped_step(rc0, out@.len());
                    }
                    self.info.increment_received();
                    out.push(m);
                    proof {
                        let nv = out@.map_values(|v: Vec<u8>| v@);
                        assert(nv =~= outv.push(m@));
                        assert(nv.drop_last() =~= outv);
                        assert(nv.last() == m@);
                        let (ms, _) = all_events(self.buffer@);
                        assert(all_events(before).0 =~= seq![m@] + ms);
                        assert(nv + ms =~= outv + (seq![m@] + ms));
                    }
                },
                None => {
                    proof {
                        assert(all_events(before).0 =~= Seq::<Seq<u8>>::empty());
                        assert(all_events(before).1 == before);
                        assert(out@.map_values(|v: Vec<u8>| v@) + Seq::<Seq<u8>>::empty() =~= out@.map_values(|v: Vec<u8>| v@));
                    }
                    return out;
                },
            }
        }
    }
}

} // verus!
