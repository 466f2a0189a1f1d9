use vstd::prelude::*;
use vstd::utf8::{valid_utf8, decode_utf8, encode_utf8};
use crate::byteseq::append_bytes;
use crate::chunk::{ChunkedPayload, chunk_payload, chunk_of, chunk_count_of, CHUNK_SIZE, MAX_CHUNKS, MAX_DATA_SIZE};
use crate::cot::{lemma_ascii_valid, CotMessage, cot_decode, rfc3339_millis_text, string_from_utf8, text_of, now_millis, new_uuid};
use crate::decimal::{fixed_text, nat_text, hex_text, push_fixed, push_decimal, push_hex8, lemma_fixed_text_ascii, lemma_number_texts_ascii};
use crate::xml_text::{chat_group, chat_link, chat_point, chat_remarks, chat_tail, chat_text, chat_time, chat_type, mesh_callsign_prefix, mesh_uid_prefix, pli_contact, pli_droid, pli_hae, pli_head, pli_lon, pli_point, pli_tail, pli_type, push_chat_group, push_chat_link, push_chat_point, push_chat_remarks, push_chat_tail, push_chat_text, push_chat_time, push_chat_type, push_mesh_callsign_prefix, push_mesh_uid_prefix, push_pli_contact, push_pli_droid, push_pli_hae, push_pli_head, push_pli_lon, push_pli_point, push_pli_tail, push_pli_type, push_synth_stale, push_synth_start, synth_stale, synth_start};

verus! {

/// Port of plain text messages.
pub const PORT_TEXT_MESSAGE: i32 = 1;

/// Port of position reports.
pub const PORT_POSITION: i32 = 3;

/// Port of the ATAK plugin.
pub const PORT_ATAK_PLUGIN: i32 = 72;

/// Port of the ATAK forwarder.
pub const PORT_ATAK_FORWARDER: i32 = 257;

/// Priority of ordinary packets.
pub const PRIORITY_DEFAULT: i32 = 64;

/// Priority of packets that want an acknowledgement.
pub const PRIORITY_RELIABLE: i32 = 70;

/// Node number that addresses every node.
pub const BROADCAST: u32 = 0xFFFF_FFFF;

/// Hops a packet may travel.
pub const HOP_LIMIT: u32 = 3;

/// A synthesized position report goes stale five minutes after it is made.
pub const PLI_STALE_MS: i64 = 300_000;

/// A synthesized chat message goes stale ten minutes after it is made.
pub const CHAT_STALE_MS: i64 = 600_000;

/// Errors of the mesh link and of translation.
#[derive(Clone, Debug, PartialEq, Eq)]
pub enum MeshtasticError {
    ConnectionFailed(String),
    SendFailed(String),
    ProtocolError(String),
    ConversionError(String),
    ChunkingError(String),
    Io(String),
    DecodeError(String),
}

/// The typed content of a mesh packet.
#[derive(Clone, Debug, PartialEq, Eq)]
pub struct Data {
    pub portnum: i32,
    pub payload: Vec<u8>,
    pub want_response: bool,
    pub dest: u32,
    pub source: u32,
    pub request_id: u32,
    pub reply_id: u32,
    pub emoji: u32,
}

/// A packet of the mesh (without the receiver's signal figures).
#[derive(Clone, Debug, PartialEq, Eq)]
pub struct MeshPacket {
    pub from: u32,
    pub to: u32,
    pub channel: u32,
    pub decoded: Option<Data>,
    pub id: u32,
    pub rx_time: u32,
    pub hop_limit: u32,
    pub want_ack: bool,
    pub priority: i32,
    pub rx_rssi: i32,
}

/// A location inside a TAK packet: latitude and longitude in units of
/// `10^-7` degrees, altitude in meters. Speed and course are always zero.
#[derive(Clone, Copy, Debug, PartialEq, Eq, Structural)]
pub struct PliLocation {
    pub latitude: i64,
    pub longitude: i64,
    pub altitude: i32,
}

/// A TAK packet as carried over the mesh.
#[derive(Clone, Debug)]
pub struct TakPacket {
    pub is_compressed: bool,
    pub contact_callsign: String,
    pub contact_uid: String,
    pub pli_location: Option<PliLocation>,
    pub group: i32,
    pub status: u32,
    pub cot: Vec<u8>,
}

/// A position report of a mesh node: degrees in units of `10^-7`, meters.
#[derive(Clone, Copy, Debug, PartialEq, Eq, Structural)]
pub struct Position {
    pub latitude_i: i32,
    pub longitude_i: i32,
    pub altitude: i32,
}

/// What a received packet carries, by its port.
#[derive(Clone, Copy, Debug, PartialEq, Eq, Structural)]
pub enum PortKind {
    /// A TAK packet (or a chunk of one)
    Tak,
    /// A position report
    Position,
    /// A chat text
    Text,
    /// Nothing the translator reads
    Other,
}

/// The kind of content that a packet on `portnum` carries.
pub fn port_kind(portnum: i32) -> (r: PortKind)
    ensures
        r == (if portnum == PORT_ATAK_FORWARDER || portnum == PORT_ATAK_PLUGIN {
            PortKind::Tak
        } else if portnum == PORT_POSITION {
            PortKind::Position
        } else if portnum == PORT_TEXT_MESSAGE {
            PortKind::Text
        } else {
            PortKind::Other
        }),
{
    if portnum == PORT_ATAK_FORWARDER || portnum == PORT_ATAK_PLUGIN {
        PortKind::Tak
    } else if portnum == PORT_POSITION {
        PortKind::Position
    } else if portnum == PORT_TEXT_MESSAGE {
        PortKind::Text
    } else {
        PortKind::Other
    }
}

// ---------------------------------------------------------------------------
// Synthesized events

/// The position report document for a contact.
pub open spec fn pli_xml(
    uid: Seq<u8>,
    cs: Seq<u8>,
    lat: i64,
    lon: i64,
    alt: i64,
    t: Seq<char>,
    st: Seq<char>,
) -> Seq<u8> {
    pli_head() + uid + pli_type() + encode_utf8(t) + synth_start() + encode_utf8(t) + synth_stale()
        + encode_utf8(st) + pli_point() + fixed_text(lat as int) + pli_lon() + fixed_text(lon as int)
        + pli_hae() + fixed_text(alt as int) + pli_contact() + cs + pli_droid() + cs + pli_tail()
}

/// The position report document made at `now`, stale five minutes later;
/// `None` when chrono cannot write those instants.
pub open spec fn pli_at(uid: Seq<u8>, cs: Seq<u8>, lat: i64, lon: i64, alt: i64, now: i64) -> Option<Seq<u8>> {
    if now + PLI_STALE_MS > i64::MAX {
        None
    } else {
        match rfc3339_millis_text(now) {
            Some(t) => match rfc3339_millis_text((now + PLI_STALE_MS) as i64) {
                Some(st) => Some(pli_xml(uid, cs, lat, lon, alt, t, st)),
                None => None,
            },
            None => None,
        }
    }
}

/// The chat document for `text` from a contact.
pub open spec fn chat_xml(
    event_uid: Seq<u8>,
    chat_id: Seq<u8>,
    uid: Seq<u8>,
    cs: Seq<u8>,
    text: Seq<u8>,
    t: Seq<char>,
    st: Seq<char>,
) -> Seq<u8> {
    pli_head() + event_uid + chat_type() + encode_utf8(t) + synth_start() + encode_utf8(t)
        + synth_stale() + encode_utf8(st) + chat_point() + chat_id + chat_group() + uid + chat_link()
        + uid + chat_remarks() + cs + chat_time() + encode_utf8(t) + chat_text() + text + chat_tail()
}

/// The uid of a mesh node: `MESHTASTIC-` and its number in decimal.
pub open spec fn node_uid(node: u32) -> Seq<u8> {
    mesh_uid_prefix() + nat_text(node as nat)
}

/// The callsign of a mesh node: `Mesh-` and its number in eight uppercase
/// hexadecimal digits.
pub open spec fn node_callsign(node: u32) -> Seq<u8> {
    mesh_callsign_prefix() + hex_text(node as nat, 8)
}

/// Appends `s`, keeping the buffer valid UTF-8.
fn push_valid(v: &mut Vec<u8>, s: &[u8])
    requires
        valid_utf8(old(v)@),
        valid_utf8(s@),
    ensures
        final(v)@ == old(v)@ + s@,
        valid_utf8(final(v)@),
{
    append_bytes(v, s);
    proof {
        vstd::utf8::valid_utf8_concat(old(v)@, s@);
    }
}

proof fn lemma_concat_valid(a: Seq<u8>, b: Seq<u8>)
    requires
        valid_utf8(a),
        valid_utf8(b),
    ensures
        valid_utf8(a + b),
{
    vstd::utf8::valid_utf8_concat(a, b);
}

fn text_bytes(s: &str) -> (r: Vec<u8>)
    ensures
        r@ == encode_utf8(s@),
        valid_utf8(r@),
{
    let mut v: Vec<u8> = Vec::new();
    append_bytes(&mut v, s.as_bytes());
    proof {
        vstd::utf8::encode_utf8_valid_utf8(s@);
    }
    v
}

/// The bytes that `push` appends, as a vector of their own.
fn piece(which: u8) -> (r: Vec<u8>)
    ensures
        which == 0 ==> r@ == pli_head(),
        which == 1 ==> r@ == pli_type(),
        which == 2 ==> r@ == synth_start(),
        which == 3 ==> r@ == synth_stale(),
        which == 4 ==> r@ == pli_point(),
        which == 5 ==> r@ == pli_lon(),
        which == 6 ==> r@ == pli_hae(),
        which == 7 ==> r@ == pli_contact(),
        which == 8 ==> r@ == pli_droid(),
        which == 9 ==> r@ == pli_tail(),
        which == 10 ==> r@ == chat_type(),
        which == 11 ==> r@ == chat_point(),
        which == 12 ==> r@ == chat_group(),
        which == 13 ==> r@ == chat_link(),
        which == 14 ==> r@ == chat_remarks(),
        which == 15 ==> r@ == chat_time(),
        which == 16 ==> r@ == chat_text(),
        which == 17 ==> r@ == chat_tail(),
        valid_utf8(r@),
{
    let mut v: Vec<u8> = Vec::new();
    if which == 0 {
        push_pli_head(&mut v);
    } else if which == 1 {
        push_pli_type(&mut v);
    } else if which == 2 {
        push_synth_start(&mut v);
    } else if which == 3 {
        push_synth_stale(&mut v);
    } else if which == 4 {
        push_pli_point(&mut v);
    } else if which == 5 {
        push_pli_lon(&mut v);
    } else if which == 6 {
        push_pli_hae(&mut v);
    } else if which == 7 {
        push_pli_contact(&mut v);
    } else if which == 8 {
        push_pli_droid(&mut v);
    } else if which == 9 {
        push_pli_tail(&mut v);
    } else if which == 10 {
        push_chat_type(&mut v);
    } else if which == 11 {
        push_chat_point(&mut v);
    } else if which == 12 {
        push_chat_group(&mut v);
    } else if which == 13 {
        push_chat_link(&mut v);
    } else if which == 14 {
        push_chat_remarks(&mut v);
    } else if which == 15 {
        push_chat_time(&mut v);
    } else if which == 16 {
        push_chat_text(&mut v);
    } else {
        push_chat_tail(&mut v);
    }
    proof {
        lemma_ascii_valid(v@);
    }
    v
}

fn fixed_bytes(x: i64) -> (r: Vec<u8>)
    ensures
        r@ == fixed_text(x as int),
        valid_utf8(r@),
{
    let mut v: Vec<u8> = Vec::new();
    push_fixed(&mut v, x);
    proof {
        assert(v@ =~= fixed_text(x as int));
        lemma_fixed_text_ascii(x as int);
        lemma_ascii_valid(v@);
    }
    v
}

fn time_texts(now: i64, stale_after: i64) -> (r: Option<(String, String)>)
    requires
        stale_after > 0,
    ensures
        match r {
            Some((t, st)) => now + stale_after <= i64::MAX && rfc3339_millis_text(now) == Some(t@)
                && rfc3339_millis_text((now + stale_after) as i64) == Some(st@),
            None => now + stale_after > i64::MAX || rfc3339_millis_text(now) is None
                || rfc3339_millis_text((now + stale_after) as i64) is None,
        },
{
    let stale = match now.checked_add(stale_after) {
        Some(s) => s,
        None => {
            return None;
        },
    };
    let t = match crate::cot::format_millis(now) {
        Some(t) => t,
        None => {
            return None;
        },
    };
    let st = match crate::cot::format_millis(stale) {
        Some(s) => s,
        None => {
            return None;
        },
    };
    Some((t, st))
}

/// The bytes of a position report document made at `now` (see `pli_at`).
pub fn pli_document(uid: &[u8], cs: &[u8], lat: i64, lon: i64, alt: i64, now: i64) -> (r: Option<Vec<u8>>)
    requires
        valid_utf8(uid@),
        valid_utf8(cs@),
    ensures
        match pli_at(uid@, cs@, lat, lon, alt, now) {
            Some(x) => r matches Some(v) && v@ == x && valid_utf8(v@),
            None => r is None,
        },
{
    let (t, st) = match time_texts(now, PLI_STALE_MS) {
        Some(p) => p,
        None => {
            return None;
        },
    };
    let tb = text_bytes(t.as_str());
    let sb = text_bytes(st.as_str());
    let mut x: Vec<u8> = Vec::new();
    proof {
        lemma_ascii_valid(x@);
    }
    push_valid(&mut x, piece(0).as_slice());
    push_valid(&mut x, uid);
    push_valid(&mut x, piece(1).as_slice());
    push_valid(&mut x, tb.as_slice());
    push_valid(&mut x, piece(2).as_slice());
    push_valid(&mut x, tb.as_slice());
    push_valid(&mut x, piece(3).as_slice());
    push_valid(&mut x, sb.as_slice());
    push_valid(&mut x, piece(4).as_slice());
    push_valid(&mut x, fixed_bytes(lat).as_slice());
    push_valid(&mut x, piece(5).as_slice());
    push_valid(&mut x, fixed_bytes(lon).as_slice());
    push_valid(&mut x, piece(6).as_slice());
    push_valid(&mut x, fixed_bytes(alt).as_slice());
    push_valid(&mut x, piece(7).as_slice());
    push_valid(&mut x, cs);
    push_valid(&mut x, piece(8).as_slice());
    push_valid(&mut x, cs);
    push_valid(&mut x, piece(9).as_slice());
    assert(x@ =~= pli_xml(uid@, cs@, lat, lon, alt, t@, st@));
    Some(x)
}

/// Turns a document that is known to be valid UTF-8 into a `String`.
fn document_string(x: Vec<u8>) -> (r: String)
    requires
        valid_utf8(x@),
    ensures
        r@ == decode_utf8(x@),
        encode_utf8(r@) == x@,
{
    proof {
        vstd::utf8::decode_utf8_encode_utf8(x@);
    }
    match string_from_utf8(x.as_slice()) {
        Some(s) => s,
        None => String::new(),
    }
}

/// A position report for a contact, made at `now` (milliseconds since the
/// epoch): type `a-f-G-U-C`, how `m-g`, stale five minutes later, circular and
/// linear error 10 m, and a detail with contact, uid, precision location,
/// track and status. `lat`, `lon` and `alt` are fixed-point numbers in units
/// of `10^-7`. A `ConversionError` when chrono cannot write the instants.
pub fn build_pli_cot(uid: &str, callsign: &str, lat: i64, lon: i64, alt: i64, now: i64) -> (r: Result<String, MeshtasticError>)
    ensures
        match pli_at(encode_utf8(uid@), encode_utf8(callsign@), lat, lon, alt, now) {
            Some(x) => r matches Ok(s) && encode_utf8(s@) == x,
            None => r matches Err(MeshtasticError::ConversionError(_)),
        },
{
    let u = text_bytes(uid);
    let c = text_bytes(callsign);
    match pli_document(u.as_slice(), c.as_slice(), lat, lon, alt, now) {
        Some(x) => Ok(document_string(x)),
        None => Err(MeshtasticError::ConversionError("instant out of range".to_owned())),
    }
}

fn node_names(node: u32) -> (r: (Vec<u8>, Vec<u8>))
    ensures
        r.0@ == node_uid(node),
        r.1@ == node_callsign(node),
        valid_utf8(r.0@),
        valid_utf8(r.1@),
{
    let mut u: Vec<u8> = Vec::new();
    push_mesh_uid_prefix(&mut u);
    push_decimal(&mut u, node as u64);
    let mut c: Vec<u8> = Vec::new();
    push_mesh_callsign_prefix(&mut c);
    push_hex8(&mut c, node);
    proof {
        assert(u@ =~= node_uid(node));
        assert(c@ =~= node_callsign(node));
        lemma_number_texts_ascii(node as nat, 8);
        lemma_ascii_valid(mesh_uid_prefix());
        lemma_ascii_valid(mesh_callsign_prefix());
        lemma_ascii_valid(nat_text(node as nat));
        lemma_ascii_valid(hex_text(node as nat, 8));
        lemma_concat_valid(mesh_uid_prefix(), nat_text(node as nat));
        lemma_concat_valid(mesh_callsign_prefix(), hex_text(node as nat, 8));
    }
    (u, c)
}

/// A position report for mesh node `node_id`, made at `now`: uid
/// `MESHTASTIC-<decimal>`, callsign `Mesh-<8 hex digits>`, latitude and
/// longitude as reported, altitude in meters.
pub fn position_cot_at(position: &Position, node_id: u32, now: i64) -> (r: Result<String, MeshtasticError>)
    ensures
        match pli_at(
            node_uid(node_id),
            node_callsign(node_id),
            position.latitude_i as i64,
            position.longitude_i as i64,
            (position.altitude as i64 * 10_000_000) as i64,
            now,
        ) {
            Some(x) => r matches Ok(s) && encode_utf8(s@) == x,
            None => r matches Err(MeshtasticError::ConversionError(_)),
        },
{
    let (u, c) = node_names(node_id);
    let alt: i64 = position.altitude as i64 * 10_000_000;
    match pli_document(
        u.as_slice(),
        c.as_slice(),
        position.latitude_i as i64,
        position.longitude_i as i64,
        alt,
        now,
    ) {
        Some(x) => Ok(document_string(x)),
        None => Err(MeshtasticError::ConversionError("instant out of range".to_owned())),
    }
}

/// A position report for mesh node `node_id`, made now (see `position_cot_at`).
pub fn position_to_cot(position: &Position, node_id: u32) -> (r: Result<String, MeshtasticError>)
    ensures
        r matches Ok(s) ==> exists|now: i64|
            #[trigger] pli_at(
                node_uid(node_id),
                node_callsign(node_id),
                position.latitude_i as i64,
                position.longitude_i as i64,
                (position.altitude as i64 * 10_000_000) as i64,
                now,
            ) == Some(encode_utf8(s@)),
        r is Err ==> r matches Err(MeshtasticError::ConversionError(_)),
{
    let now = now_millis();
    position_cot_at(position, node_id, now)
}

/// The chat document made at `now`, stale ten minutes later.
pub open spec fn chat_at(event_uid: Seq<u8>, chat_id: Seq<u8>, node: u32, text: Seq<u8>, now: i64) -> Option<Seq<u8>> {
    if now + CHAT_STALE_MS > i64::MAX {
        None
    } else {
        match rfc3339_millis_text(now) {
            Some(t) => match rfc3339_millis_text((now + CHAT_STALE_MS) as i64) {
                Some(st) => Some(
                    chat_xml(event_uid, chat_id, node_uid(node), node_callsign(node), text, t, st),
                ),
                None => None,
            },
            None => None,
        }
    }
}

/// A GeoChat event (type `b-t-f`) carrying `text` in its remarks, from mesh
/// node `from_node`, made at `now`, with `event_uid` as the event's uid and
/// `chat_id` as the chat's id.
pub fn chat_cot_at(text: &str, from_node: u32, now: i64, event_uid: &str, chat_id: &str) -> (r: Result<String, MeshtasticError>)
    ensures
        match chat_at(encode_utf8(event_uid@), encode_utf8(chat_id@), from_node, encode_utf8(text@), now) {
            Some(x) => r matches Ok(s) && encode_utf8(s@) == x,
            None => r matches Err(MeshtasticError::ConversionError(_)),
        },
{
    let (t, st) = match time_texts(now, CHAT_STALE_MS) {
        Some(p) => p,
        None => {
            return Err(MeshtasticError::ConversionError("instant out of range".to_owned()));
        },
    };
    let (u, c) = node_names(from_node);
    let tb = text_bytes(t.as_str());
    let sb = text_bytes(st.as_str());
    let eb = text_bytes(event_uid);
    let cb = text_bytes(chat_id);
    let xb = text_bytes(text);
    let mut x: Vec<u8> = Vec::new();
    proof {
        lemma_ascii_valid(x@);
    }
    push_valid(&mut x, piece(0).as_slice());
    push_valid(&mut x, eb.as_slice());
    push_valid(&mut x, piece(10).as_slice());
    push_valid(&mut x, tb.as_slice());
    push_valid(&mut x, piece(2).as_slice());
    push_valid(&mut x, tb.as_slice());
    push_valid(&mut x, piece(3).as_slice());
    push_valid(&mut x, sb.as_slice());
    push_valid(&mut x, piece(11).as_slice());
    push_valid(&mut x, cb.as_slice());
    push_valid(&mut x, piece(12).as_slice());
    push_valid(&mut x, u.as_slice());
    push_valid(&mut x, piece(13).as_slice());
    push_valid(&mut x, u.as_slice());
    push_valid(&mut x, piece(14).as_slice());
    push_valid(&mut x, c.as_slice());
    push_valid(&mut x, piece(15).as_slice());
    push_valid(&mut x, tb.as_slice());
    push_valid(&mut x, piece(16).as_slice());
    push_valid(&mut x, xb.as_slice());
    push_valid(&mut x, piece(17).as_slice());
    assert(x@ =~= chat_xml(eb@, cb@, u@, c@, xb@, t@, st@));
    Ok(document_string(x))
}

/// A GeoChat event for `text` from `from_node`, made now with fresh UUIDs
/// (see `chat_cot_at`).
pub fn chat_to_cot(text: &str, from_node: u32) -> (r: Result<String, MeshtasticError>)
    ensures
        r matches Ok(s) ==> exists|e: Seq<u8>, c: Seq<u8>, now: i64|
            #[trigger] chat_at(e, c, from_node, encode_utf8(text@), now) == Some(encode_utf8(s@)),
        r is Err ==> r matches Err(MeshtasticError::ConversionError(_)),
{
    let event_uid = new_uuid();
    let chat_id = new_uuid();
    let now = now_millis();
    chat_cot_at(text, from_node, now, event_uid.as_str(), chat_id.as_str())
}

/// The event a received TAK packet stands for, at `now`: its `cot` text when
/// that is not empty (a `ConversionError` when it is not UTF-8), otherwise a
/// position report for its contact (see `build_pli_cot`), and a
/// `ConversionError` when it has neither.
pub fn tak_cot_at(tak: &TakPacket, now: i64) -> (r: Result<String, MeshtasticError>)
    ensures
        tak.cot@.len() > 0 ==> match text_of(tak.cot@) {
            Some(t) => r matches Ok(s) && s@ == t,
            None => r matches Err(MeshtasticError::ConversionError(_)),
        },
        tak.cot@.len() == 0 ==> match tak.pli_location {
            Some(p) => match pli_at(
                encode_utf8(tak.contact_uid@),
                encode_utf8(tak.contact_callsign@),
                p.latitude,
                p.longitude,
                (p.altitude as i64 * 10_000_000) as i64,
                now,
            ) {
                Some(x) => r matches Ok(s) && encode_utf8(s@) == x,
                None => r matches Err(MeshtasticError::ConversionError(_)),
            },
            None => r matches Err(MeshtasticError::ConversionError(_)),
        },
{
    if tak.cot.len() > 0 {
        return match string_from_utf8(tak.cot.as_slice()) {
            Some(s) => Ok(s),
            None => Err(MeshtasticError::ConversionError("invalid UTF-8 in CoT".to_owned())),
        };
    }
    match tak.pli_location {
        Some(p) => build_pli_cot(
            tak.contact_uid.as_str(),
            tak.contact_callsign.as_str(),
            p.latitude,
            p.longitude,
            p.altitude as i64 * 10_000_000,
            now,
        ),
        None => Err(MeshtasticError::ConversionError("Failed to decode TAK packet".to_owned())),
    }
}

/// The event a received TAK packet stands for, now (see `tak_cot_at`).
pub fn meshtastic_to_cot(tak: &TakPacket) -> (r: Result<String, MeshtasticError>)
    ensures
        tak.cot@.len() > 0 ==> match text_of(tak.cot@) {
            Some(t) => r matches Ok(s) && s@ == t,
            None => r matches Err(MeshtasticError::ConversionError(_)),
        },
        tak.cot@.len() == 0 && tak.pli_location is None ==> r matches Err(
            MeshtasticError::ConversionError(_),
        ),
        tak.cot@.len() == 0 && tak.pli_location is Some ==> (r matches Ok(s) ==> exists|now: i64|
            #[trigger] pli_at(
                encode_utf8(tak.contact_uid@),
                encode_utf8(tak.contact_callsign@),
                tak.pli_location->Some_0.latitude,
                tak.pli_location->Some_0.longitude,
                (tak.pli_location->Some_0.altitude as i64 * 10_000_000) as i64,
                now,
            ) == Some(encode_utf8(s@))),
{
    let now = now_millis();
    tak_cot_at(tak, now)
}

// ---------------------------------------------------------------------------
// Outbound

/// Whole meters of a fixed-point height, rounded toward zero and held to the
/// range of `i32`.
pub open spec fn hae_meters(h: i64) -> i32 {
    let m: int = if h >= 0 { h / 10_000_000 } else { -((-h) / 10_000_000) };
    if m > i32::MAX {
        i32::MAX
    } else if m < i32::MIN {
        i32::MIN
    } else {
        m as i32
    }
}

fn meters_of(h: i64) -> (r: i32)
    ensures
        r == hae_meters(h),
{
    let m: i64 = if h >= 0 {
        h / 10_000_000
    } else {
        0 - ((0 - (h as i128)) / 10_000_000) as i64
    };
    if m > i32::MAX as i64 {
        i32::MAX
    } else if m < i32::MIN as i64 {
        i32::MIN
    } else {
        m as i32
    }
}

/// The TAK packet that carries the CoT document `cot_xml`: the event's uid as
/// contact uid and callsign, its point as location (altitude in whole
/// meters), and the document itself. A `ConversionError` when the document
/// cannot be read.
pub fn tak_packet_for_cot(cot_xml: &str) -> (r: Result<TakPacket, MeshtasticError>)
    ensures
        match cot_decode(encode_utf8(cot_xml@)) {
            Ok(v) => r matches Ok(t) && t.contact_uid@ == v.uid && t.contact_callsign@ == v.uid
                && t.pli_location == Some(
                PliLocation {
                    latitude: v.point.lat,
                    longitude: v.point.lon,
                    altitude: hae_meters(v.point.hae),
                },
            ) && t.cot@ == encode_utf8(cot_xml@) && !t.is_compressed && t.group == 0 && t.status == 0,
            Err(_) => r matches Err(MeshtasticError::ConversionError(_)),
        },
{
    let cot = match CotMessage::from_xml(cot_xml) {
        Ok(c) => c,
        Err(_) => {
            return Err(MeshtasticError::ConversionError("CoT document cannot be read".to_owned()));
        },
    };
    let pli = PliLocation {
        latitude: cot.point.lat,
        longitude: cot.point.lon,
        altitude: meters_of(cot.point.hae),
    };
    let mut raw: Vec<u8> = Vec::new();
    append_bytes(&mut raw, cot_xml.as_bytes());
    let uid2 = cot.uid.clone();
    Ok(
        TakPacket {
            is_compressed: false,
            contact_callsign: uid2,
            contact_uid: cot.uid,
            pli_location: Some(pli),
            group: 0,
            status: 0,
            cot: raw,
        },
    )
}

/// How an encoded TAK packet goes out: in one mesh packet, or in chunks that
/// each still have to be encoded and wrapped (see `chunk_packet`).
#[derive(Clone, Debug)]
pub enum OutboundPlan {
    Single(MeshPacket),
    Chunked(Vec<ChunkedPayload>),
}

/// The mesh packet for `payload` on the ATAK forwarder port, addressed to
/// `dest_node` (everyone when `None`), with three hops.
fn packet(payload: Vec<u8>, dest_node: Option<u32>, packet_id: u32, chunked: bool) -> (r: MeshPacket)
    ensures
        r.decoded matches Some(d) && d.portnum == PORT_ATAK_FORWARDER && d.payload@ == payload@
            && !d.want_response && d.dest == r.to && d.source == 0 && d.request_id == 0
            && d.reply_id == 0 && d.emoji == 0,
        r.to == (match dest_node {
            Some(n) => n,
            None => BROADCAST,
        }),
        r.from == 0,
        r.channel == 0,
        r.id == packet_id,
        r.rx_time == 0,
        r.hop_limit == HOP_LIMIT,
        r.want_ack == chunked,
        r.priority == (if chunked { PRIORITY_RELIABLE } else { PRIORITY_DEFAULT }),
        r.rx_rssi == 0,
{
    let to = match dest_node {
        Some(n) => n,
        None => BROADCAST,
    };
    MeshPacket {
        from: 0,
        to,
        channel: 0,
        decoded: Some(
            Data {
                portnum: PORT_ATAK_FORWARDER,
                payload,
                want_response: false,
                dest: to,
                source: 0,
                request_id: 0,
                reply_id: 0,
                emoji: 0,
            },
        ),
        id: packet_id,
        rx_time: 0,
        hop_limit: HOP_LIMIT,
        want_ack: chunked,
        priority: if chunked {
            PRIORITY_RELIABLE
        } else {
            PRIORITY_DEFAULT
        },
        rx_rssi: 0,
    }
}

/// The plan for an encoded TAK packet: up to `MAX_DATA_SIZE` bytes travel in
/// one packet with id `packet_id` (no acknowledgement, default priority);
/// larger ones are split into chunks that share `payload_id` (see
/// `chunk_payload`). A `ChunkingError` when more than `MAX_CHUNKS` chunks
/// would be needed.
pub fn cot_to_meshtastic(payload: Vec<u8>, dest_node: Option<u32>, packet_id: u32, payload_id: u32) -> (r: Result<OutboundPlan, MeshtasticError>)
    ensures
        payload@.len() <= MAX_DATA_SIZE ==> (r matches Ok(OutboundPlan::Single(p)) && p.decoded
            matches Some(d) && d.portnum == PORT_ATAK_FORWARDER && d.payload@ == payload@
            && d.dest == p.to && p.from == 0 && p.hop_limit == HOP_LIMIT && p.id == packet_id && !p.want_ack
            && p.priority == PRIORITY_DEFAULT && p.to == (match dest_node {
            Some(n) => n,
            None => BROADCAST,
        })),
        MAX_DATA_SIZE < payload@.len() <= CHUNK_SIZE * MAX_CHUNKS ==> (r matches Ok(
            OutboundPlan::Chunked(cs),
        ) && cs@.len() == chunk_count_of(payload@.len()) && forall|i: int|
            0 <= i < cs@.len() ==> {
                &&& (#[trigger] cs@[i]).payload_id == payload_id
                &&& cs@[i].chunk_count == cs@.len()
                &&& cs@[i].chunk_index == i
                &&& cs@[i].payload_chunk@ == chunk_of(payload@, i)
            }),
        payload@.len() > CHUNK_SIZE * MAX_CHUNKS ==> r matches Err(
            MeshtasticError::ChunkingError(_),
        ),
{
    let n = payload.len();
    if n <= MAX_DATA_SIZE {
        return Ok(OutboundPlan::Single(packet(payload, dest_node, packet_id, false)));
    }
    if n > CHUNK_SIZE * (MAX_CHUNKS as usize) {
        return Err(MeshtasticError::ChunkingError("payload too large".to_owned()));
    }
    Ok(OutboundPlan::Chunked(chunk_payload(payload.as_slice(), payload_id)))
}

/// The mesh packet for one encoded chunk: on the ATAK forwarder port,
/// addressed to `dest_node` (everyone when `None`), wanting an
/// acknowledgement, with reliable priority.
pub fn chunk_packet(chunk_data: Vec<u8>, dest_node: Option<u32>, packet_id: u32) -> (r: MeshPacket)
    ensures
        r.decoded matches Some(d) && d.portnum == PORT_ATAK_FORWARDER && d.payload@ == chunk_data@,
        r.to == (match dest_node {
            Some(n) => n,
            None => BROADCAST,
        }),
        r.id == packet_id,
        r.hop_limit == HOP_LIMIT,
        r.want_ack,
        r.priority == PRIORITY_RELIABLE,
{
    packet(chunk_data, dest_node, packet_id, true)
}

/// A random 32-bit number. Relies on uuid's `Uuid::new_v4`, whose low 32 bits
/// are random.
#[verifier::external_body]
pub fn random() -> (r: u32) {
    uuid::Uuid::new_v4().as_u128() as u32
}

} // verus!
