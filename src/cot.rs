use vstd::prelude::*;
use vstd::utf8::{valid_utf8, decode_utf8, encode_utf8};
use crate::byteseq::{find, find_from, find_bytes_from, copy_range, append_bytes, lemma_find_from};
use crate::round_trip::read_back;
use crate::decimal::{fixed_text, parse_fixed_i64, push_fixed, parse_fixed_bytes};
use crate::xml_text::{push_summary_close, push_summary_lat, push_summary_lon, push_summary_open, push_summary_type, summary_close, summary_lat, summary_lon, summary_open, summary_type, ce_open, detail_close, detail_open, event_close, hae_open, head, how_open, lat_open, le_open, lon_open, machine_how, name_ce, name_hae, name_how, name_lat, name_le, name_lon, name_stale, name_start, name_time, name_type, name_uid, point_close, point_tag, push_ce_open, push_detail_close, push_detail_open, push_event_close, push_hae_open, push_head, push_how_open, push_lat_open, push_le_open, push_lon_open, push_machine_how, push_name_ce, push_name_hae, push_name_how, push_name_lat, push_name_le, push_name_lon, push_name_stale, push_name_start, push_name_time, push_name_type, push_name_uid, push_point_close, push_point_tag, push_stale_open, push_start_open, push_tag_end, push_time_open, push_type_open, stale_open, start_open, tag_end, time_open, type_open};

verus! {

/// A geographic point. Every field is a fixed-point number in units of
/// `10^-7`: degrees for `lat` and `lon`, meters for `hae`, `ce` and `le`.
#[derive(Clone, Copy, Debug, PartialEq, Eq, Structural)]
pub struct Point {
    /// Latitude
    pub lat: i64,
    /// Longitude
    pub lon: i64,
    /// Height above the ellipsoid
    pub hae: i64,
    /// Circular error
    pub ce: i64,
    /// Linear error
    pub le: i64,
}

/// Why a CoT document could not be read or written.
#[derive(Clone, Copy, Debug, PartialEq, Eq, Structural)]
pub enum CotError {
    /// An attribute or tag is missing or unterminated.
    BadFormat,
    /// A point attribute is not a decimal number.
    BadNumber,
    /// A time attribute is not an RFC 3339 instant.
    BadTime,
}

/// A Cursor-on-Target event. Instants are milliseconds since the Unix epoch.
#[derive(Clone, Debug)]
pub struct CotMessage {
    /// Message UID
    pub uid: String,
    /// Event type (e.g. "a-f-G-U-C" for a friendly ground unit)
    pub event_type: String,
    /// How the data was generated
    pub how: String,
    /// When the event was generated
    pub time: i64,
    /// When the event starts
    pub start: i64,
    /// When the event becomes stale
    pub stale: i64,
    /// Point location
    pub point: Point,
    /// Inner XML of the detail element
    pub detail: Option<String>,
}

/// The abstract content of a CoT event.
pub ghost struct CotView {
    pub uid: Seq<char>,
    pub event_type: Seq<char>,
    pub how: Seq<char>,
    pub time: i64,
    pub start: i64,
    pub stale: i64,
    pub point: Point,
    pub detail: Option<Seq<char>>,
}

impl View for CotMessage {
    type V = CotView;

    open spec fn view(&self) -> CotView {
        CotView {
            uid: self.uid@,
            event_type: self.event_type@,
            how: self.how@,
            time: self.time,
            start: self.start,
            stale: self.stale,
            point: self.point,
            detail: match self.detail {
                Some(d) => Some(d@),
                None => None,
            },
        }
    }
}

// ---------------------------------------------------------------------------
// Outside calls

/// What chrono writes for an instant given in milliseconds since the epoch, as
/// RFC 3339 with milliseconds and a `Z` suffix; `None` outside chrono's range.
pub uninterp spec fn rfc3339_millis_text(ms: i64) -> Option<Seq<char>>;

/// What chrono reads from an RFC 3339 text, as milliseconds since the epoch.
pub uninterp spec fn rfc3339_millis_value(s: Seq<char>) -> Option<i64>;

/// A character that chrono's RFC 3339 writer emits with a `Z` suffix.
pub open spec fn is_time_char(c: char) -> bool {
    ('0' <= c <= '9') || c == '-' || c == '+' || c == ':' || c == '.' || c == 'T' || c == 'Z'
}

/// Instants of the years 0001 to 9999, in milliseconds since the epoch.
pub open spec fn four_digit_year(ms: i64) -> bool {
    -62_135_596_800_000 <= ms <= 253_402_300_799_999
}

/// `YYYY-MM-DDTHH:MM:SS.mmmZ`, with its fixed characters in place.
pub open spec fn millis_text_form(t: Seq<char>) -> bool {
    &&& t.len() == 24
    &&& t[4] == '-'
    &&& t[7] == '-'
    &&& t[10] == 'T'
    &&& t[13] == ':'
    &&& t[16] == ':'
    &&& t[19] == '.'
    &&& t[23] == 'Z'
}

/// Relies on chrono's `DateTime::from_timestamp_millis` (None out of range) and
/// `to_rfc3339_opts(SecondsFormat::Millis, true)`, whose output is built from
/// digits, the sign of an out-of-range year, `-`, `T`, `:`, `.` and `Z`; for
/// the years 0001 to 9999 it is `YYYY-MM-DDTHH:MM:SS.mmmZ` (four-digit year,
/// three fractional digits, `Z`), a form that `parse_from_rfc3339` reads back
/// to the same millisecond.
#[verifier::external_body]
pub(crate) fn format_millis(ms: i64) -> (r: Option<String>)
    ensures
        match r {
            Some(s) => rfc3339_millis_text(ms) == Some(s@) && (forall|i: int|
                0 <= i < s@.len() ==> is_time_char(#[trigger] s@[i])) && (four_digit_year(ms)
                ==> millis_text_form(s@) && rfc3339_millis_value(s@) == Some(ms)),
            None => rfc3339_millis_text(ms).is_none() && !four_digit_year(ms),
        },
{
    match chrono::DateTime::from_timestamp_millis(ms) {
        Some(dt) => Some(dt.to_rfc3339_opts(chrono::SecondsFormat::Millis, true)),
        None => None,
    }
}

/// Relies on chrono's `DateTime::parse_from_rfc3339` and `timestamp_millis`.
#[verifier::external_body]
fn parse_millis(s: &str) -> (r: Option<i64>)
    ensures
        r == rfc3339_millis_value(s@),
{
    match chrono::DateTime::parse_from_rfc3339(s) {
        Ok(dt) => Some(dt.timestamp_millis()),
        Err(_) => None,
    }
}

/// The text that UTF-8 bytes spell, when they are valid UTF-8.
pub open spec fn text_of(b: Seq<u8>) -> Option<Seq<char>> {
    if valid_utf8(b) {
        Some(decode_utf8(b))
    } else {
        None
    }
}

/// Relies on `std::str::from_utf8`: `Ok` exactly for valid UTF-8.
#[verifier::external_body]
pub(crate) fn utf8_str(b: &[u8]) -> (r: Option<&str>)
    ensures
        match r {
            Some(s) => text_of(b@) == Some(s@),
            None => text_of(b@).is_none(),
        },
{
    match std::str::from_utf8(b) {
        Ok(s) => Some(s),
        Err(_) => None,
    }
}

/// Copies valid UTF-8 bytes into a `String`.
pub fn string_from_utf8(b: &[u8]) -> (r: Option<String>)
    ensures
        match r {
            Some(s) => text_of(b@) == Some(s@),
            None => text_of(b@).is_none(),
        },
{
    match utf8_str(b) {
        Some(s) => Some(s.to_owned()),
        None => None,
    }
}

// ---------------------------------------------------------------------------
// Reading

/// `name="`
pub open spec fn attr_pattern(name: Seq<u8>) -> Seq<u8> {
    name + seq![61u8, 34u8]
}

/// The text of the first attribute `name` in `h`: what lies between the first
/// `name="` and the next `"`.
pub open spec fn attribute_value(h: Seq<u8>, name: Seq<u8>) -> Option<Seq<u8>> {
    match find(h, attr_pattern(name)) {
        Some(i) => {
            let s = i + attr_pattern(name).len();
            match find_from(h, seq![34u8], s) {
                Some(e) => Some(h.subrange(s, e)),
                None => None,
            }
        },
        None => None,
    }
}

/// The first `<point` tag of `h`, up to (not including) the next `/>`.
pub open spec fn point_section(h: Seq<u8>) -> Option<Seq<u8>> {
    match find(h, point_tag()) {
        Some(ps) => match find_from(h, tag_end(), ps) {
            Some(pe) => Some(h.subrange(ps, pe)),
            None => None,
        },
        None => None,
    }
}

/// The text of attribute `name` in the first `<point` tag of `h`.
pub open spec fn point_attribute(h: Seq<u8>, name: Seq<u8>) -> Option<Seq<u8>> {
    match point_section(h) {
        Some(sec) => attribute_value(sec, name),
        None => None,
    }
}

/// What lies between the first `<detail>` and the first `</detail>` of `h`.
pub open spec fn detail_section(h: Seq<u8>) -> Option<Seq<u8>> {
    match find(h, detail_open()) {
        Some(s) => match find(h, detail_close()) {
            Some(e) => if s + 8 <= e {
                Some(h.subrange(s + 8, e))
            } else {
                None
            },
            None => None,
        },
        None => None,
    }
}

/// A required text attribute.
pub open spec fn text_attr(h: Seq<u8>, name: Seq<u8>) -> Result<Seq<char>, CotError> {
    match attribute_value(h, name) {
        Some(b) => match text_of(b) {
            Some(t) => Ok(t),
            None => Err(CotError::BadFormat),
        },
        None => Err(CotError::BadFormat),
    }
}

/// The `how` attribute, `m-g` (machine generated) when it is absent.
pub open spec fn how_attr(h: Seq<u8>) -> Result<Seq<char>, CotError> {
    match attribute_value(h, name_how()) {
        Some(b) => match text_of(b) {
            Some(t) => Ok(t),
            None => Err(CotError::BadFormat),
        },
        None => Ok(decode_utf8(machine_how())),
    }
}

/// A required instant attribute.
pub open spec fn time_attr(h: Seq<u8>, name: Seq<u8>) -> Result<i64, CotError> {
    match attribute_value(h, name) {
        Some(b) => match text_of(b) {
            Some(t) => match rfc3339_millis_value(t) {
                Some(ms) => Ok(ms),
                None => Err(CotError::BadTime),
            },
            None => Err(CotError::BadTime),
        },
        None => Err(CotError::BadFormat),
    }
}

/// A required numeric attribute of the point.
pub open spec fn number_attr(h: Seq<u8>, name: Seq<u8>) -> Result<i64, CotError> {
    match point_attribute(h, name) {
        Some(b) => match parse_fixed_i64(b) {
            Some(v) => Ok(v),
            None => Err(CotError::BadNumber),
        },
        None => Err(CotError::BadFormat),
    }
}

/// The optional detail.
pub open spec fn detail_attr(h: Seq<u8>) -> Result<Option<Seq<char>>, CotError> {
    match detail_section(h) {
        Some(b) => match text_of(b) {
            Some(t) => Ok(Some(t)),
            None => Err(CotError::BadFormat),
        },
        None => Ok(None),
    }
}

/// The event that the document `h` holds, or the first error met when reading
/// its fields in order: uid, type, how, the three instants, the five point
/// numbers, the detail.
pub open spec fn cot_decode(h: Seq<u8>) -> Result<CotView, CotError> {
    let uid = text_attr(h, name_uid());
    let ty = text_attr(h, name_type());
    let how = how_attr(h);
    let time = time_attr(h, name_time());
    let start = time_attr(h, name_start());
    let stale = time_attr(h, name_stale());
    let lat = number_attr(h, name_lat());
    let lon = number_attr(h, name_lon());
    let hae = number_attr(h, name_hae());
    let ce = number_attr(h, name_ce());
    let le = number_attr(h, name_le());
    let detail = detail_attr(h);
    if uid is Err {
        Err(uid->Err_0)
    } else if ty is Err {
        Err(ty->Err_0)
    } else if how is Err {
        Err(how->Err_0)
    } else if time is Err {
        Err(time->Err_0)
    } else if start is Err {
        Err(start->Err_0)
    } else if stale is Err {
        Err(stale->Err_0)
    } else if lat is Err {
        Err(lat->Err_0)
    } else if lon is Err {
        Err(lon->Err_0)
    } else if hae is Err {
        Err(hae->Err_0)
    } else if ce is Err {
        Err(ce->Err_0)
    } else if le is Err {
        Err(le->Err_0)
    } else if detail is Err {
        Err(detail->Err_0)
    } else {
        Ok(
            CotView {
                uid: uid->Ok_0,
                event_type: ty->Ok_0,
                how: how->Ok_0,
                time: time->Ok_0,
                start: start->Ok_0,
                stale: stale->Ok_0,
                point: Point {
                    lat: lat->Ok_0,
                    lon: lon->Ok_0,
                    hae: hae->Ok_0,
                    ce: ce->Ok_0,
                    le: le->Ok_0,
                },
                detail: detail->Ok_0,
            },
        )
    }
}

/// `attr="` as bytes.
fn attr_pattern_bytes(attr: &[u8]) -> (r: Vec<u8>)
    ensures
        r@ == attr_pattern(attr@),
{
    let mut p: Vec<u8> = Vec::new();
    append_bytes(&mut p, attr);
    p.push(61u8);
    p.push(34u8);
    assert(p@ =~= attr_pattern(attr@));
    p
}

/// The text of the first attribute `attr` in `xml` (see `attribute_value`).
pub fn extract_attribute(xml: &[u8], attr: &[u8]) -> (r: Result<Vec<u8>, CotError>)
    ensures
        match attribute_value(xml@, attr@) {
            Some(v) => r matches Ok(b) && b@ == v,
            None => r == Err::<Vec<u8>, CotError>(CotError::BadFormat),
        },
{
    let n = xml.len();
    let pat = attr_pattern_bytes(attr);
    let i = match find_bytes_from(xml, pat.as_slice(), 0) {
        Some(i) => i,
        None => {
            return Err(CotError::BadFormat);
        },
    };
    proof {
        lemma_find_from(xml@, pat@, 0);
        assert(find(xml@, attr_pattern(attr@)) == Some(i as int));
    }
    let s = i + pat.len();
    let quote: [u8; 1] = [34u8];
    assert(quote@ =~= seq![34u8]);
    assert(s as int == i as int + attr_pattern(attr@).len());
    let e = match find_bytes_from(xml, &quote, s) {
        Some(e) => e,
        None => {
            return Err(CotError::BadFormat);
        },
    };
    proof {
        lemma_find_from(xml@, quote@, s as int);
    }
    Ok(copy_range(xml, s, e))
}

/// The text of attribute `attr` in the first `<point` tag of `xml`.
pub fn extract_point_attribute(xml: &[u8], attr: &[u8]) -> (r: Result<Vec<u8>, CotError>)
    ensures
        match point_attribute(xml@, attr@) {
            Some(v) => r matches Ok(b) && b@ == v,
            None => r == Err::<Vec<u8>, CotError>(CotError::BadFormat),
        },
{
    let mut tag: Vec<u8> = Vec::new();
    push_point_tag(&mut tag);
    let mut close: Vec<u8> = Vec::new();
    push_tag_end(&mut close);
    assert(tag@ =~= point_tag());
    assert(close@ =~= tag_end());
    let ps = match find_bytes_from(xml, tag.as_slice(), 0) {
        Some(p) => p,
        None => {
            return Err(CotError::BadFormat);
        },
    };
    proof {
        lemma_find_from(xml@, tag@, 0);
    }
    let pe = match find_bytes_from(xml, close.as_slice(), ps) {
        Some(p) => p,
        None => {
            return Err(CotError::BadFormat);
        },
    };
    proof {
        lemma_find_from(xml@, close@, ps as int);
    }
    let section = copy_range(xml, ps, pe);
    assert(point_section(xml@) == Some(section@));
    extract_attribute(section.as_slice(), attr)
}

/// The inner XML of the detail element (see `detail_section`).
pub fn extract_detail(xml: &[u8]) -> (r: Option<Vec<u8>>)
    ensures
        match detail_section(xml@) {
            Some(v) => r matches Some(b) && b@ == v,
            None => r is None,
        },
{
    let mut open: Vec<u8> = Vec::new();
    push_detail_open(&mut open);
    let mut close: Vec<u8> = Vec::new();
    push_detail_close(&mut close);
    assert(open@ =~= detail_open());
    assert(close@ =~= detail_close());
    let s = match find_bytes_from(xml, open.as_slice(), 0) {
        Some(s) => s,
        None => {
            return None;
        },
    };
    let e = match find_bytes_from(xml, close.as_slice(), 0) {
        Some(e) => e,
        None => {
            return None;
        },
    };
    proof {
        lemma_find_from(xml@, open@, 0);
        lemma_find_from(xml@, close@, 0);
    }
    assert(find(xml@, detail_open()) == Some(s as int));
    assert(find(xml@, detail_close()) == Some(e as int));
    assert(detail_open().len() == 8);
    if e < s || e - s < 8 {
        return None;
    }
    Some(copy_range(xml, s + 8, e))
}

// ---------------------------------------------------------------------------
// Writing

/// The detail element for an optional inner text.
pub open spec fn detail_part(d: Option<Seq<char>>) -> Seq<u8> {
    match d {
        Some(t) => detail_open() + encode_utf8(t) + detail_close(),
        None => Seq::empty(),
    }
}

/// The document for `v` with the three instants written as `t1`, `t2`, `t3`.
#[verifier::opaque]
pub open spec fn xml_with_times(v: CotView, t1: Seq<char>, t2: Seq<char>, t3: Seq<char>) -> Seq<u8> {
    head() + encode_utf8(v.uid) + type_open() + encode_utf8(v.event_type) + how_open()
        + encode_utf8(v.how) + time_open() + encode_utf8(t1) + start_open() + encode_utf8(t2)
        + stale_open() + encode_utf8(t3) + lat_open() + fixed_text(v.point.lat as int) + lon_open()
        + fixed_text(v.point.lon as int) + hae_open() + fixed_text(v.point.hae as int) + ce_open()
        + fixed_text(v.point.ce as int) + le_open() + fixed_text(v.point.le as int) + point_close()
        + detail_part(v.detail) + event_close()
}

/// The document for `v`: `None` when an instant lies outside what chrono writes.
pub open spec fn cot_encode(v: CotView) -> Option<Seq<u8>> {
    match rfc3339_millis_text(v.time) {
        Some(t1) => match rfc3339_millis_text(v.start) {
            Some(t2) => match rfc3339_millis_text(v.stale) {
                Some(t3) => Some(xml_with_times(v, t1, t2, t3)),
                None => None,
            },
            None => None,
        },
        None => None,
    }
}

/// Appends the UTF-8 bytes of `s`.
fn push_str(v: &mut Vec<u8>, s: &str)
    ensures
        final(v)@ == old(v)@ + encode_utf8(s@),
{
    append_bytes(v, s.as_bytes());
}

/// Bytes below 128 are valid UTF-8.
pub proof fn lemma_ascii_valid(b: Seq<u8>)
    requires
        forall|i: int| 0 <= i < b.len() ==> #[trigger] b[i] < 128,
    ensures
        valid_utf8(b),
    decreases b.len(),
{
    if b.len() > 0 {
        assert(vstd::utf8::pop_first_scalar(b) =~= b.drop_first());
        lemma_ascii_valid(b.drop_first());
    }
}

proof fn lemma_ascii_fixed(v: int)
    ensures
        valid_utf8(fixed_text(v)),
{
    crate::decimal::lemma_fixed_text_ascii(v);
    lemma_ascii_valid(fixed_text(v));
}

proof fn lemma_cat_valid(a: Seq<u8>, b: Seq<u8>)
    requires
        valid_utf8(a),
        valid_utf8(b),
    ensures
        valid_utf8(a + b),
{
    vstd::utf8::valid_utf8_concat(a, b);
}

proof fn lemma_xml_valid(v: CotView, t1: Seq<char>, t2: Seq<char>, t3: Seq<char>)
    ensures
        valid_utf8(xml_with_times(v, t1, t2, t3)),
{
    lemma_ascii_valid(head());
    lemma_ascii_valid(type_open());
    lemma_ascii_valid(how_open());
    lemma_ascii_valid(time_open());
    lemma_ascii_valid(start_open());
    lemma_ascii_valid(stale_open());
    lemma_ascii_valid(lat_open());
    lemma_ascii_valid(lon_open());
    lemma_ascii_valid(hae_open());
    lemma_ascii_valid(ce_open());
    lemma_ascii_valid(le_open());
    lemma_ascii_valid(point_close());
    lemma_ascii_valid(detail_open());
    lemma_ascii_valid(detail_close());
    lemma_ascii_valid(event_close());
    lemma_ascii_valid(Seq::<u8>::empty());
    lemma_ascii_fixed(v.point.lat as int);
    lemma_ascii_fixed(v.point.lon as int);
    lemma_ascii_fixed(v.point.hae as int);
    lemma_ascii_fixed(v.point.ce as int);
    lemma_ascii_fixed(v.point.le as int);
    vstd::utf8::encode_utf8_valid_utf8(v.uid);
    vstd::utf8::encode_utf8_valid_utf8(v.event_type);
    vstd::utf8::encode_utf8_valid_utf8(v.how);
    vstd::utf8::encode_utf8_valid_utf8(t1);
    vstd::utf8::encode_utf8_valid_utf8(t2);
    vstd::utf8::encode_utf8_valid_utf8(t3);
    let mut x = head();
    lemma_cat_valid(x, encode_utf8(v.uid));
    x = x + encode_utf8(v.uid);
    lemma_cat_valid(x, type_open());
    x = x + type_open();
    lemma_cat_valid(x, encode_utf8(v.event_type));
    x = x + encode_utf8(v.event_type);
    lemma_cat_valid(x, how_open());
    x = x + how_open();
    lemma_cat_valid(x, encode_utf8(v.how));
    x = x + encode_utf8(v.how);
    lemma_cat_valid(x, time_open());
    x = x + time_open();
    lemma_cat_valid(x, encode_utf8(t1));
    x = x + encode_utf8(t1);
    lemma_cat_valid(x, start_open());
    x = x + start_open();
    lemma_cat_valid(x, encode_utf8(t2));
    x = x + encode_utf8(t2);
    lemma_cat_valid(x, stale_open());
    x = x + stale_open();
    lemma_cat_valid(x, encode_utf8(t3));
    x = x + encode_utf8(t3);
    lemma_cat_valid(x, lat_open());
    x = x + lat_open();
    lemma_cat_valid(x, fixed_text(v.point.lat as int));
    x = x + fixed_text(v.point.lat as int);
    lemma_cat_valid(x, lon_open());
    x = x + lon_open();
    lemma_cat_valid(x, fixed_text(v.point.lon as int));
    x = x + fixed_text(v.point.lon as int);
    lemma_cat_valid(x, hae_open());
    x = x + hae_open();
    lemma_cat_valid(x, fixed_text(v.point.hae as int));
    x = x + fixed_text(v.point.hae as int);
    lemma_cat_valid(x, ce_open());
    x = x + ce_open();
    lemma_cat_valid(x, fixed_text(v.point.ce as int));
    x = x + fixed_text(v.point.ce as int);
    lemma_cat_valid(x, le_open());
    x = x + le_open();
    lemma_cat_valid(x, fixed_text(v.point.le as int));
    x = x + fixed_text(v.point.le as int);
    lemma_cat_valid(x, point_close());
    x = x + point_close();
    match v.detail {
        Some(t) => {
            vstd::utf8::encode_utf8_valid_utf8(t);
            lemma_cat_valid(detail_open(), encode_utf8(t));
            lemma_cat_valid(detail_open() + encode_utf8(t), detail_close());
        },
        None => {},
    }
    lemma_cat_valid(x, detail_part(v.detail));
    x = x + detail_part(v.detail);
    lemma_cat_valid(x, event_close());
    x = x + event_close();
    reveal(xml_with_times);
    assert(x == xml_with_times(v, t1, t2, t3));
}

/// The three instants of `v` lie in the years 0001 to 9999.
pub open spec fn times_writable(v: CotView) -> bool {
    four_digit_year(v.time) && four_digit_year(v.start) && four_digit_year(v.stale)
}

/// The texts of `v` survive a document: uid, type and how hold no quote, `=`
/// or `<`, and the detail holds no `</detail>`.
pub open spec fn texts_survive(v: CotView) -> bool {
    &&& crate::round_trip::attr_text_ok(v.uid)
    &&& crate::round_trip::attr_text_ok(v.event_type)
    &&& crate::round_trip::attr_text_ok(v.how)
    &&& crate::round_trip::detail_ok(v.detail)
}

impl CotMessage {
    /// The document for this event as bytes (see `cot_encode`); `BadTime` when an
    /// instant lies outside what chrono writes.
    pub fn to_xml_bytes(&self) -> (r: Result<Vec<u8>, CotError>)
        ensures
            match cot_encode(self@) {
                Some(x) => r matches Ok(b) && b@ == x,
                None => r == Err::<Vec<u8>, CotError>(CotError::BadTime),
            },
            times_writable(self@) ==> r is Ok,
            times_writable(self@) ==> millis_text_form(rfc3339_millis_text(self.time)->Some_0)
                && millis_text_form(rfc3339_millis_text(self.start)->Some_0) && millis_text_form(
                rfc3339_millis_text(self.stale)->Some_0,
            ),
            times_writable(self@) && texts_survive(self@) ==> (r matches Ok(b) && cot_decode(b@)
                == Ok::<CotView, CotError>(self@)),
    {
        let t1 = match format_millis(self.time) {
            Some(t) => t,
            None => {
                return Err(CotError::BadTime);
            },
        };
        let t2 = match format_millis(self.start) {
            Some(t) => t,
            None => {
                return Err(CotError::BadTime);
            },
        };
        let t3 = match format_millis(self.stale) {
            Some(t) => t,
            None => {
                return Err(CotError::BadTime);
            },
        };
        let mut x: Vec<u8> = Vec::new();
        push_head(&mut x);
        push_str(&mut x, self.uid.as_str());
        push_type_open(&mut x);
        push_str(&mut x, self.event_type.as_str());
        push_how_open(&mut x);
        push_str(&mut x, self.how.as_str());
        push_time_open(&mut x);
        push_str(&mut x, t1.as_str());
        push_start_open(&mut x);
        push_str(&mut x, t2.as_str());
        push_stale_open(&mut x);
        push_str(&mut x, t3.as_str());
        push_lat_open(&mut x);
        push_fixed(&mut x, self.point.lat);
        push_lon_open(&mut x);
        push_fixed(&mut x, self.point.lon);
        push_hae_open(&mut x);
        push_fixed(&mut x, self.point.hae);
        push_ce_open(&mut x);
        push_fixed(&mut x, self.point.ce);
        push_le_open(&mut x);
        push_fixed(&mut x, self.point.le);
        push_point_close(&mut x);
        let ghost before_detail = x@;
        match &self.detail {
            Some(d) => {
                push_detail_open(&mut x);
                push_str(&mut x, d.as_str());
                push_detail_close(&mut x);
            },
            None => {},
        }
        assert(x@ =~= before_detail + detail_part(self@.detail));
        push_event_close(&mut x);
        proof {
            reveal(xml_with_times);
        }
        assert(x@ =~= xml_with_times(self@, t1@, t2@, t3@));
        proof {
            if times_writable(self@) && texts_survive(self@) {
                crate::round_trip::lemma_cot_round_trip(self@);
                assert(read_back(self@) == Ok::<CotView, CotError>(self@));
            }
        }
        Ok(x)
    }

    /// The document for this event (see `cot_encode`); `BadTime` when an instant
    /// lies outside what chrono writes.
    pub fn to_xml(&self) -> (r: Result<String, CotError>)
        ensures
            match cot_encode(self@) {
                Some(x) => r matches Ok(s) && s@ == decode_utf8(x) && encode_utf8(s@) == x,
                None => r == Err::<String, CotError>(CotError::BadTime),
            },
            times_writable(self@) ==> r is Ok,
            times_writable(self@) && texts_survive(self@) ==> (r matches Ok(s) && cot_decode(
                encode_utf8(s@),
            ) == Ok::<CotView, CotError>(self@)),
    {
        let b = match self.to_xml_bytes() {
            Ok(b) => b,
            Err(e) => {
                return Err(e);
            },
        };
        proof {
            match cot_encode(self@) {
                Some(x) => {
                    let t1 = rfc3339_millis_text(self.time)->Some_0;
                    let t2 = rfc3339_millis_text(self.start)->Some_0;
                    let t3 = rfc3339_millis_text(self.stale)->Some_0;
                    lemma_xml_valid(self@, t1, t2, t3);
                    vstd::utf8::decode_utf8_encode_utf8(x);
                },
                None => {},
            }
        }
        match string_from_utf8(b.as_slice()) {
            Some(s) => Ok(s),
            None => Err(CotError::BadFormat),
        }
    }
}

fn read_text_attr(xml: &[u8], name: &[u8]) -> (r: Result<String, CotError>)
    ensures
        match text_attr(xml@, name@) {
            Ok(t) => r matches Ok(s) && s@ == t,
            Err(e) => r == Err::<String, CotError>(e),
        },
{
    let b = match extract_attribute(xml, name) {
        Ok(b) => b,
        Err(e) => {
            return Err(e);
        },
    };
    match string_from_utf8(b.as_slice()) {
        Some(s) => Ok(s),
        None => Err(CotError::BadFormat),
    }
}

fn read_how(xml: &[u8]) -> (r: Result<String, CotError>)
    ensures
        match how_attr(xml@) {
            Ok(t) => r matches Ok(s) && s@ == t,
            Err(e) => r == Err::<String, CotError>(e),
        },
{
    let mut name: Vec<u8> = Vec::new();
    push_name_how(&mut name);
    assert(name@ =~= name_how());
    match extract_attribute(xml, name.as_slice()) {
        Ok(b) => match string_from_utf8(b.as_slice()) {
            Some(s) => Ok(s),
            None => Err(CotError::BadFormat),
        },
        Err(_) => {
            let mut d: Vec<u8> = Vec::new();
            push_machine_how(&mut d);
            assert(d@ =~= machine_how());
            proof {
                lemma_ascii_valid(machine_how());
            }
            match string_from_utf8(d.as_slice()) {
                Some(s) => Ok(s),
                None => Err(CotError::BadFormat),
            }
        },
    }
}

fn read_time_attr(xml: &[u8], name: &[u8]) -> (r: Result<i64, CotError>)
    ensures
        r == time_attr(xml@, name@),
{
    let b = match extract_attribute(xml, name) {
        Ok(b) => b,
        Err(e) => {
            return Err(e);
        },
    };
    match utf8_str(b.as_slice()) {
        Some(s) => match parse_millis(s) {
            Some(ms) => Ok(ms),
            None => Err(CotError::BadTime),
        },
        None => Err(CotError::BadTime),
    }
}

fn read_number_attr(xml: &[u8], name: &[u8]) -> (r: Result<i64, CotError>)
    ensures
        r == number_attr(xml@, name@),
{
    let b = match extract_point_attribute(xml, name) {
        Ok(b) => b,
        Err(e) => {
            return Err(e);
        },
    };
    match parse_fixed_bytes(b.as_slice()) {
        Some(v) => Ok(v),
        None => Err(CotError::BadNumber),
    }
}

fn read_detail(xml: &[u8]) -> (r: Result<Option<String>, CotError>)
    ensures
        match detail_attr(xml@) {
            Ok(Some(t)) => r matches Ok(Some(s)) && s@ == t,
            Ok(None) => r matches Ok(None),
            Err(e) => r == Err::<Option<String>, CotError>(e),
        },
{
    match extract_detail(xml) {
        Some(b) => match string_from_utf8(b.as_slice()) {
            Some(s) => Ok(Some(s)),
            None => Err(CotError::BadFormat),
        },
        None => Ok(None),
    }
}

fn name_bytes(which: u8) -> (r: Vec<u8>)
    ensures
        which == 0 ==> r@ == name_uid(),
        which == 1 ==> r@ == name_type(),
        which == 2 ==> r@ == name_time(),
        which == 3 ==> r@ == name_start(),
        which == 4 ==> r@ == name_stale(),
        which == 5 ==> r@ == name_lat(),
        which == 6 ==> r@ == name_lon(),
        which == 7 ==> r@ == name_hae(),
        which == 8 ==> r@ == name_ce(),
        which == 9 ==> r@ == name_le(),
{
    let mut v: Vec<u8> = Vec::new();
    if which == 0 {
        push_name_uid(&mut v);
    } else if which == 1 {
        push_name_type(&mut v);
    } else if which == 2 {
        push_name_time(&mut v);
    } else if which == 3 {
        push_name_start(&mut v);
    } else if which == 4 {
        push_name_stale(&mut v);
    } else if which == 5 {
        push_name_lat(&mut v);
    } else if which == 6 {
        push_name_lon(&mut v);
    } else if which == 7 {
        push_name_hae(&mut v);
    } else if which == 8 {
        push_name_ce(&mut v);
    } else if which == 9 {
        push_name_le(&mut v);
    }
    assert(which == 0 ==> v@ =~= name_uid());
    v
}

impl CotMessage {
    /// Reads the event that the document `xml` holds (see `cot_decode`).
    pub fn from_xml_bytes(xml: &[u8]) -> (r: Result<CotMessage, CotError>)
        ensures
            match cot_decode(xml@) {
                Ok(v) => r matches Ok(m) && m@ == v,
                Err(e) => r matches Err(f) && f == e,
            },
    {
        let uid = match read_text_attr(xml, name_bytes(0).as_slice()) {
            Ok(s) => s,
            Err(e) => {
                return Err(e);
            },
        };
        let event_type = match read_text_attr(xml, name_bytes(1).as_slice()) {
            Ok(s) => s,
            Err(e) => {
                return Err(e);
            },
        };
        let how = match read_how(xml) {
            Ok(s) => s,
            Err(e) => {
                return Err(e);
            },
        };
        let time = match read_time_attr(xml, name_bytes(2).as_slice()) {
            Ok(t) => t,
            Err(e) => {
                return Err(e);
            },
        };
        let start = match read_time_attr(xml, name_bytes(3).as_slice()) {
            Ok(t) => t,
            Err(e) => {
                return Err(e);
            },
        };
        let stale = match read_time_attr(xml, name_bytes(4).as_slice()) {
            Ok(t) => t,
            Err(e) => {
                return Err(e);
            },
        };
        let lat = match read_number_attr(xml, name_bytes(5).as_slice()) {
            Ok(v) => v,
            Err(e) => {
                return Err(e);
            },
        };
        let lon = match read_number_attr(xml, name_bytes(6).as_slice()) {
            Ok(v) => v,
            Err(e) => {
                return Err(e);
            },
        };
        let hae = match read_number_attr(xml, name_bytes(7).as_slice()) {
            Ok(v) => v,
            Err(e) => {
                return Err(e);
            },
        };
        let ce = match read_number_attr(xml, name_bytes(8).as_slice()) {
            Ok(v) => v,
            Err(e) => {
                return Err(e);
            },
        };
        let le = match read_number_attr(xml, name_bytes(9).as_slice()) {
            Ok(v) => v,
            Err(e) => {
                return Err(e);
            },
        };
        let detail = match read_detail(xml) {
            Ok(d) => d,
            Err(e) => {
                return Err(e);
            },
        };
        let m = CotMessage {
            uid,
            event_type,
            how,
            time,
            start,
            stale,
            point: Point { lat, lon, hae, ce, le },
            detail,
        };
        assert(m@ == cot_decode(xml@)->Ok_0);
        Ok(m)
    }

    /// Reads the event that the document `xml` holds (see `cot_decode`).
    pub fn from_xml(xml: &str) -> (r: Result<CotMessage, CotError>)
        ensures
            match cot_decode(encode_utf8(xml@)) {
                Ok(v) => r matches Ok(m) && m@ == v,
                Err(e) => r matches Err(f) && f == e,
            },
    {
        CotMessage::from_xml_bytes(xml.as_bytes())
    }

    /// An event at instant `now` (milliseconds since the epoch), machine
    /// generated (`m-g`), stale one minute later, without detail.
    pub fn at(uid: &str, event_type: &str, point: Point, now: i64) -> (r: CotMessage)
        requires
            now <= i64::MAX - STALE_AFTER_MS,
        ensures
            r@.uid == uid@,
            r@.event_type == event_type@,
            r@.how == decode_utf8(machine_how()),
            r.time == now,
            r.start == now,
            r.stale == now + STALE_AFTER_MS,
            r.point == point,
            r.detail is None,
    {
        let mut h: Vec<u8> = Vec::new();
        push_machine_how(&mut h);
        assert(h@ =~= machine_how());
        proof {
            lemma_ascii_valid(machine_how());
        }
        let how = match string_from_utf8(h.as_slice()) {
            Some(s) => s,
            None => String::new(),
        };
        CotMessage {
            uid: uid.to_owned(),
            event_type: event_type.to_owned(),
            how,
            time: now,
            start: now,
            stale: now + STALE_AFTER_MS,
            point,
            detail: None,
        }
    }

    /// An event at the current instant (see `at`).
    pub fn new(uid: &str, event_type: &str, point: Point) -> (r: CotMessage)
        ensures
            r@.uid == uid@,
            r@.event_type == event_type@,
            r@.how == decode_utf8(machine_how()),
            r.start == r.time,
            r.stale == r.time + STALE_AFTER_MS,
            r.point == point,
            r.detail is None,
    {
        CotMessage::at(uid, event_type, point, now_millis())
    }

    /// An event at the current instant with a fresh random UUID as its uid.
    pub fn with_random_uid(event_type: &str, point: Point) -> (r: CotMessage)
        ensures
            r@.uid.len() == 36,
            r@.event_type == event_type@,
            r.start == r.time,
            r.stale == r.time + STALE_AFTER_MS,
            r.point == point,
            r.detail is None,
    {
        let uid = new_uuid();
        CotMessage::new(uid.as_str(), event_type, point)
    }

    /// The same event with `detail` as its detail.
    pub fn with_detail(self, detail: &str) -> (r: CotMessage)
        ensures
            r@ == (CotView { detail: Some(detail@), ..self@ }),
    {
        let mut m = self;
        m.detail = Some(detail.to_owned());
        m
    }

    /// The same event with `stale` as its stale instant.
    pub fn with_stale(self, stale: i64) -> (r: CotMessage)
        ensures
            r@ == (CotView { stale: stale, ..self@ }),
    {
        let mut m = self;
        m.stale = stale;
        m
    }
}

/// The one-line summary of an event: uid, type, latitude and longitude.
pub open spec fn summary_text(v: CotView) -> Seq<u8> {
    summary_open() + encode_utf8(v.uid) + summary_type() + encode_utf8(v.event_type) + summary_lat()
        + fixed_text(v.point.lat as int) + summary_lon() + fixed_text(v.point.lon as int)
        + summary_close()
}

impl CotMessage {
    /// `CoT[uid=<uid>, type=<type>, lat=<lat>, lon=<lon>]`.
    pub fn to_string(&self) -> (r: String)
        ensures
            encode_utf8(r@) == summary_text(self@),
    {
        let mut x: Vec<u8> = Vec::new();
        push_summary_open(&mut x);
        push_str(&mut x, self.uid.as_str());
        push_summary_type(&mut x);
        push_str(&mut x, self.event_type.as_str());
        push_summary_lat(&mut x);
        push_fixed(&mut x, self.point.lat);
        push_summary_lon(&mut x);
        push_fixed(&mut x, self.point.lon);
        push_summary_close(&mut x);
        assert(x@ =~= summary_text(self@));
        proof {
            lemma_ascii_valid(summary_open());
            lemma_ascii_valid(summary_type());
            lemma_ascii_valid(summary_lat());
            lemma_ascii_valid(summary_lon());
            lemma_ascii_valid(summary_close());
            lemma_ascii_fixed(self.point.lat as int);
            lemma_ascii_fixed(self.point.lon as int);
            vstd::utf8::encode_utf8_valid_utf8(self.uid@);
            vstd::utf8::encode_utf8_valid_utf8(self.event_type@);
            let mut y = summary_open();
            lemma_cat_valid(y, encode_utf8(self.uid@));
            y = y + encode_utf8(self.uid@);
            lemma_cat_valid(y, summary_type());
            y = y + summary_type();
            lemma_cat_valid(y, encode_utf8(self.event_type@));
            y = y + encode_utf8(self.event_type@);
            lemma_cat_valid(y, summary_lat());
            y = y + summary_lat();
            lemma_cat_valid(y, fixed_text(self.point.lat as int));
            y = y + fixed_text(self.point.lat as int);
            lemma_cat_valid(y, summary_lon());
            y = y + summary_lon();
            lemma_cat_valid(y, fixed_text(self.point.lon as int));
            y = y + fixed_text(self.point.lon as int);
            lemma_cat_valid(y, summary_close());
            y = y + summary_close();
            assert(y == x@);
            vstd::utf8::decode_utf8_encode_utf8(x@);
        }
        match string_from_utf8(x.as_slice()) {
            Some(s) => s,
            None => String::new(),
        }
    }
}

/// How long after its creation an event built by `CotMessage::at` goes stale.
pub const STALE_AFTER_MS: i64 = 60_000;

/// Every instant that chrono represents lies within this many milliseconds of
/// the epoch.
pub const INSTANT_RANGE_MS: i64 = 8_400_000_000_000_000;

/// Relies on chrono's `Utc::now` and `timestamp_millis`; a chrono instant lies
/// between years -262143 and 262142, within `INSTANT_RANGE_MS` of the epoch.
#[verifier::external_body]
pub(crate) fn now_millis() -> (r: i64)
    ensures
        -INSTANT_RANGE_MS <= r <= INSTANT_RANGE_MS,
{
    chrono::Utc::now().timestamp_millis()
}

/// Relies on uuid's `Uuid::new_v4` and its hyphenated text form, which is
/// 36 characters long.
#[verifier::external_body]
pub(crate) fn new_uuid() -> (r: String)
    ensures
        r@.len() == 36,
{
    uuid::Uuid::new_v4().to_string()
}

} // verus!
