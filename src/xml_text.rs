use vstd::prelude::*;

verus! {

/// The bytes of `<?xml version="1.0" encoding="UTF-8"?><event version="2.0" uid="`.
pub open spec fn head() -> Seq<u8> {
    seq![60u8, 63u8, 120u8, 109u8, 108u8, 32u8, 118u8, 101u8, 114u8, 115u8, 105u8, 111u8, 110u8, 61u8, 34u8, 49u8, 46u8, 48u8, 34u8, 32u8, 101u8, 110u8, 99u8, 111u8, 100u8, 105u8, 110u8, 103u8, 61u8, 34u8, 85u8, 84u8, 70u8, 45u8, 56u8, 34u8, 63u8, 62u8, 60u8, 101u8, 118u8, 101u8, 110u8, 116u8, 32u8, 118u8, 101u8, 114u8, 115u8, 105u8, 111u8, 110u8, 61u8, 34u8, 50u8, 46u8, 48u8, 34u8, 32u8, 117u8, 105u8, 100u8, 61u8, 34u8]
}

/// Appends `<?xml version="1.0" encoding="UTF-8"?><event version="2.0" uid="`.
pub fn push_head(v: &mut Vec<u8>)
    ensures
        final(v)@ == old(v)@ + head(),
{
    let a: [u8; 64] = [60u8, 63u8, 120u8, 109u8, 108u8, 32u8, 118u8, 101u8, 114u8, 115u8, 105u8, 111u8, 110u8, 61u8, 34u8, 49u8, 46u8, 48u8, 34u8, 32u8, 101u8, 110u8, 99u8, 111u8, 100u8, 105u8, 110u8, 103u8, 61u8, 34u8, 85u8, 84u8, 70u8, 45u8, 56u8, 34u8, 63u8, 62u8, 60u8, 101u8, 118u8, 101u8, 110u8, 116u8, 32u8, 118u8, 101u8, 114u8, 115u8, 105u8, 111u8, 110u8, 61u8, 34u8, 50u8, 46u8, 48u8, 34u8, 32u8, 117u8, 105u8, 100u8, 61u8, 34u8];
    assert(a@ =~= head());
    crate::byteseq::append_bytes(v, &a);
}

/// The bytes of `" type="`.
pub open spec fn type_open() -> Seq<u8> {
    seq![34u8, 32u8, 116u8, 121u8, 112u8, 101u8, 61u8, 34u8]
}

/// Appends `" type="`.
pub fn push_type_open(v: &mut Vec<u8>)
    ensures
        final(v)@ == old(v)@ + type_open(),
{
    let a: [u8; 8] = [34u8, 32u8, 116u8, 121u8, 112u8, 101u8, 61u8, 34u8];
    assert(a@ =~= type_open());
    crate::byteseq::append_bytes(v, &a);
}

/// The bytes of `" how="`.
pub open spec fn how_open() -> Seq<u8> {
    seq![34u8, 32u8, 104u8, 111u8, 119u8, 61u8, 34u8]
}

/// Appends `" how="`.
pub fn push_how_open(v: &mut Vec<u8>)
    ensures
        final(v)@ == old(v)@ + how_open(),
{
    let a: [u8; 7] = [34u8, 32u8, 104u8, 111u8, 119u8, 61u8, 34u8];
    assert(a@ =~= how_open());
    crate::byteseq::append_bytes(v, &a);
}

/// The bytes of `" time="`.
pub open spec fn time_open() -> Seq<u8> {
    seq![34u8, 32u8, 116u8, 105u8, 109u8, 101u8, 61u8, 34u8]
}

/// Appends `" time="`.
pub fn push_time_open(v: &mut Vec<u8>)
    ensures
        final(v)@ == old(v)@ + time_open(),
{
    let a: [u8; 8] = [34u8, 32u8, 116u8, 105u8, 109u8, 101u8, 61u8, 34u8];
    assert(a@ =~= time_open());
    crate::byteseq::append_bytes(v, &a);
}

/// The bytes of `" start="`.
pub open spec fn start_open() -> Seq<u8> {
    seq![34u8, 32u8, 115u8, 116u8, 97u8, 114u8, 116u8, 61u8, 34u8]
}

/// Appends `" start="`.
pub fn push_start_open(v: &mut Vec<u8>)
    ensures
        final(v)@ == old(v)@ + start_open(),
{
    let a: [u8; 9] = [34u8, 32u8, 115u8, 116u8, 97u8, 114u8, 116u8, 61u8, 34u8];
    assert(a@ =~= start_open());
    crate::byteseq::append_bytes(v, &a);
}

/// The bytes of `" stale="`.
pub open spec fn stale_open() -> Seq<u8> {
    seq![34u8, 32u8, 115u8, 116u8, 97u8, 108u8, 101u8, 61u8, 34u8]
}

/// Appends `" stale="`.
pub fn push_stale_open(v: &mut Vec<u8>)
    ensures
        final(v)@ == old(v)@ + stale_open(),
{
    let a: [u8; 9] = [34u8, 32u8, 115u8, 116u8, 97u8, 108u8, 101u8, 61u8, 34u8];
    assert(a@ =~= stale_open());
    crate::byteseq::append_bytes(v, &a);
}

/// The bytes of `"><point lat="`.
pub open spec fn lat_open() -> Seq<u8> {
    seq![34u8, 62u8, 60u8, 112u8, 111u8, 105u8, 110u8, 116u8, 32u8, 108u8, 97u8, 116u8, 61u8, 34u8]
}

/// Appends `"><point lat="`.
pub fn push_lat_open(v: &mut Vec<u8>)
    ensures
        final(v)@ == old(v)@ + lat_open(),
{
    let a: [u8; 14] = [34u8, 62u8, 60u8, 112u8, 111u8, 105u8, 110u8, 116u8, 32u8, 108u8, 97u8, 116u8, 61u8, 34u8];
    assert(a@ =~= lat_open());
    crate::byteseq::append_bytes(v, &a);
}

/// The bytes of `" lon="`.
pub open spec fn lon_open() -> Seq<u8> {
    seq![34u8, 32u8, 108u8, 111u8, 110u8, 61u8, 34u8]
}

/// Appends `" lon="`.
pub fn push_lon_open(v: &mut Vec<u8>)
    ensures
        final(v)@ == old(v)@ + lon_open(),
{
    let a: [u8; 7] = [34u8, 32u8, 108u8, 111u8, 110u8, 61u8, 34u8];
    assert(a@ =~= lon_open());
    crate::byteseq::append_bytes(v, &a);
}

/// The bytes of `" hae="`.
pub open spec fn hae_open() -> Seq<u8> {
    seq![34u8, 32u8, 104u8, 97u8, 101u8, 61u8, 34u8]
}

/// Appends `" hae="`.
pub fn push_hae_open(v: &mut Vec<u8>)
    ensures
        final(v)@ == old(v)@ + hae_open(),
{
    let a: [u8; 7] = [34u8, 32u8, 104u8, 97u8, 101u8, 61u8, 34u8];
    assert(a@ =~= hae_open());
    crate::byteseq::append_bytes(v, &a);
}

/// The bytes of `" ce="`.
pub open spec fn ce_open() -> Seq<u8> {
    seq![34u8, 32u8, 99u8, 101u8, 61u8, 34u8]
}

/// Appends `" ce="`.
pub fn push_ce_open(v: &mut Vec<u8>)
    ensures
        final(v)@ == old(v)@ + ce_open(),
{
    let a: [u8; 6] = [34u8, 32u8, 99u8, 101u8, 61u8, 34u8];
    assert(a@ =~= ce_open());
    crate::byteseq::append_bytes(v, &a);
}

/// The bytes of `" le="`.
pub open spec fn le_open() -> Seq<u8> {
    seq![34u8, 32u8, 108u8, 101u8, 61u8, 34u8]
}

/// Appends `" le="`.
pub fn push_le_open(v: &mut Vec<u8>)
    ensures
        final(v)@ == old(v)@ + le_open(),
{
    let a: [u8; 6] = [34u8, 32u8, 108u8, 101u8, 61u8, 34u8];
    assert(a@ =~= le_open());
    crate::byteseq::append_bytes(v, &a);
}

/// The bytes of `"/>`.
pub open spec fn point_close() -> Seq<u8> {
    seq![34u8, 47u8, 62u8]
}

/// Appends `"/>`.
pub fn push_point_close(v: &mut Vec<u8>)
    ensures
        final(v)@ == old(v)@ + point_close(),
{
    let a: [u8; 3] = [34u8, 47u8, 62u8];
    assert(a@ =~= point_close());
    crate::byteseq::append_bytes(v, &a);
}

/// The bytes of `<detail>`.
pub open spec fn detail_open() -> Seq<u8> {
    seq![60u8, 100u8, 101u8, 116u8, 97u8, 105u8, 108u8, 62u8]
}

/// Appends `<detail>`.
pub fn push_detail_open(v: &mut Vec<u8>)
    ensures
        final(v)@ == old(v)@ + detail_open(),
{
    let a: [u8; 8] = [60u8, 100u8, 101u8, 116u8, 97u8, 105u8, 108u8, 62u8];
    assert(a@ =~= detail_open());
    crate::byteseq::append_bytes(v, &a);
}

/// The bytes of `</detail>`.
pub open spec fn detail_close() -> Seq<u8> {
    seq![60u8, 47u8, 100u8, 101u8, 116u8, 97u8, 105u8, 108u8, 62u8]
}

/// Appends `</detail>`.
pub fn push_detail_close(v: &mut Vec<u8>)
    ensures
        final(v)@ == old(v)@ + detail_close(),
{
    let a: [u8; 9] = [60u8, 47u8, 100u8, 101u8, 116u8, 97u8, 105u8, 108u8, 62u8];
    assert(a@ =~= detail_close());
    crate::byteseq::append_bytes(v, &a);
}

/// The bytes of `</event>`.
pub open spec fn event_close() -> Seq<u8> {
    seq![60u8, 47u8, 101u8, 118u8, 101u8, 110u8, 116u8, 62u8]
}

/// Appends `</event>`.
pub fn push_event_close(v: &mut Vec<u8>)
    ensures
        final(v)@ == old(v)@ + event_close(),
{
    let a: [u8; 8] = [60u8, 47u8, 101u8, 118u8, 101u8, 110u8, 116u8, 62u8];
    assert(a@ =~= event_close());
    crate::byteseq::append_bytes(v, &a);
}

/// The bytes of `uid`.
pub open spec fn name_uid() -> Seq<u8> {
    seq![117u8, 105u8, 100u8]
}

/// Appends `uid`.
pub fn push_name_uid(v: &mut Vec<u8>)
    ensures
        final(v)@ == old(v)@ + name_uid(),
{
    let a: [u8; 3] = [117u8, 105u8, 100u8];
    assert(a@ =~= name_uid());
    crate::byteseq::append_bytes(v, &a);
}

/// The bytes of `type`.
pub open spec fn name_type() -> Seq<u8> {
    seq![116u8, 121u8, 112u8, 101u8]
}

/// Appends `type`.
pub fn push_name_type(v: &mut Vec<u8>)
    ensures
        final(v)@ == old(v)@ + name_type(),
{
    let a: [u8; 4] = [116u8, 121u8, 112u8, 101u8];
    assert(a@ =~= name_type());
    crate::byteseq::append_bytes(v, &a);
}

/// The bytes of `how`.
pub open spec fn name_how() -> Seq<u8> {
    seq![104u8, 111u8, 119u8]
}

/// Appends `how`.
pub fn push_name_how(v: &mut Vec<u8>)
    ensures
        final(v)@ == old(v)@ + name_how(),
{
    let a: [u8; 3] = [104u8, 111u8, 119u8];
    assert(a@ =~= name_how());
    crate::byteseq::append_bytes(v, &a);
}

/// The bytes of `time`.
pub open spec fn name_time() -> Seq<u8> {
    seq![116u8, 105u8, 109u8, 101u8]
}

/// Appends `time`.
pub fn push_name_time(v: &mut Vec<u8>)
    ensures
        final(v)@ == old(v)@ + name_time(),
{
    let a: [u8; 4] = [116u8, 105u8, 109u8, 101u8];
    assert(a@ =~= name_time());
    crate::byteseq::append_bytes(v, &a);
}

/// The bytes of `start`.
pub open spec fn name_start() -> Seq<u8> {
    seq![115u8, 116u8, 97u8, 114u8, 116u8]
}

/// Appends `start`.
pub fn push_name_start(v: &mut Vec<u8>)
    ensures
        final(v)@ == old(v)@ + name_start(),
{
    let a: [u8; 5] = [115u8, 116u8, 97u8, 114u8, 116u8];
    assert(a@ =~= name_start());
    crate::byteseq::append_bytes(v, &a);
}

/// The bytes of `stale`.
pub open spec fn name_stale() -> Seq<u8> {
    seq![115u8, 116u8, 97u8, 108u8, 101u8]
}

/// Appends `stale`.
pub fn push_name_stale(v: &mut Vec<u8>)
    ensures
        final(v)@ == old(v)@ + name_stale(),
{
    let a: [u8; 5] = [115u8, 116u8, 97u8, 108u8, 101u8];
    assert(a@ =~= name_stale());
    crate::byteseq::append_bytes(v, &a);
}

/// The bytes of `lat`.
pub open spec fn name_lat() -> Seq<u8> {
    seq![108u8, 97u8, 116u8]
}

/// Appends `lat`.
pub fn push_name_lat(v: &mut Vec<u8>)
    ensures
        final(v)@ == old(v)@ + name_lat(),
{
    let a: [u8; 3] = [108u8, 97u8, 116u8];
    assert(a@ =~= name_lat());
    crate::byteseq::append_bytes(v, &a);
}

/// The bytes of `lon`.
pub open spec fn name_lon() -> Seq<u8> {
    seq![108u8, 111u8, 110u8]
}

/// Appends `lon`.
pub fn push_name_lon(v: &mut Vec<u8>)
    ensures
        final(v)@ == old(v)@ + name_lon(),
{
    let a: [u8; 3] = [108u8, 111u8, 110u8];
    assert(a@ =~= name_lon());
    crate::byteseq::append_bytes(v, &a);
}

/// The bytes of `hae`.
pub open spec fn name_hae() -> Seq<u8> {
    seq![104u8, 97u8, 101u8]
}

/// Appends `hae`.
pub fn push_name_hae(v: &mut Vec<u8>)
    ensures
        final(v)@ == old(v)@ + name_hae(),
{
    let a: [u8; 3] = [104u8, 97u8, 101u8];
    assert(a@ =~= name_hae());
    crate::byteseq::append_bytes(v, &a);
}

/// The bytes of `ce`.
pub open spec fn name_ce() -> Seq<u8> {
    seq![99u8, 101u8]
}

/// Appends `ce`.
pub fn push_name_ce(v: &mut Vec<u8>)
    ensures
        final(v)@ == old(v)@ + name_ce(),
{
    let a: [u8; 2] = [99u8, 101u8];
    assert(a@ =~= name_ce());
    crate::byteseq::append_bytes(v, &a);
}

/// The bytes of `le`.
pub open spec fn name_le() -> Seq<u8> {
    seq![108u8, 101u8]
}

/// Appends `le`.
pub fn push_name_le(v: &mut Vec<u8>)
    ensures
        final(v)@ == old(v)@ + name_le(),
{
    let a: [u8; 2] = [108u8, 101u8];
    assert(a@ =~= name_le());
    crate::byteseq::append_bytes(v, &a);
}

/// The bytes of `<point`.
pub open spec fn point_tag() -> Seq<u8> {
    seq![60u8, 112u8, 111u8, 105u8, 110u8, 116u8]
}

/// Appends `<point`.
pub fn push_point_tag(v: &mut Vec<u8>)
    ensures
        final(v)@ == old(v)@ + point_tag(),
{
    let a: [u8; 6] = [60u8, 112u8, 111u8, 105u8, 110u8, 116u8];
    assert(a@ =~= point_tag());
    crate::byteseq::append_bytes(v, &a);
}

/// The bytes of `/>`.
pub open spec fn tag_end() -> Seq<u8> {
    seq![47u8, 62u8]
}

/// Appends `/>`.
pub fn push_tag_end(v: &mut Vec<u8>)
    ensures
        final(v)@ == old(v)@ + tag_end(),
{
    let a: [u8; 2] = [47u8, 62u8];
    assert(a@ =~= tag_end());
    crate::byteseq::append_bytes(v, &a);
}

/// The bytes of `m-g`.
pub open spec fn machine_how() -> Seq<u8> {
    seq![109u8, 45u8, 103u8]
}

/// Appends `m-g`.
pub fn push_machine_how(v: &mut Vec<u8>)
    ensures
        final(v)@ == old(v)@ + machine_how(),
{
    let a: [u8; 3] = [109u8, 45u8, 103u8];
    assert(a@ =~= machine_how());
    crate::byteseq::append_bytes(v, &a);
}

/// The bytes of `callsign`.
pub open spec fn name_callsign() -> Seq<u8> {
    seq![99u8, 97u8, 108u8, 108u8, 115u8, 105u8, 103u8, 110u8]
}

/// Appends `callsign`.
pub fn push_name_callsign(v: &mut Vec<u8>)
    ensures
        final(v)@ == old(v)@ + name_callsign(),
{
    let a: [u8; 8] = [99u8, 97u8, 108u8, 108u8, 115u8, 105u8, 103u8, 110u8];
    assert(a@ =~= name_callsign());
    crate::byteseq::append_bytes(v, &a);
}

/// The bytes of `<?xml version="1.0" encoding="UTF-8"?>\n<event version="2.0" uid="`.
pub open spec fn pli_head() -> Seq<u8> {
    seq![60u8, 63u8, 120u8, 109u8, 108u8, 32u8, 118u8, 101u8, 114u8, 115u8, 105u8, 111u8, 110u8, 61u8, 34u8, 49u8, 46u8, 48u8, 34u8, 32u8, 101u8, 110u8, 99u8, 111u8, 100u8, 105u8, 110u8, 103u8, 61u8, 34u8, 85u8, 84u8, 70u8, 45u8, 56u8, 34u8, 63u8, 62u8, 10u8, 60u8, 101u8, 118u8, 101u8, 110u8, 116u8, 32u8, 118u8, 101u8, 114u8, 115u8, 105u8, 111u8, 110u8, 61u8, 34u8, 50u8, 46u8, 48u8, 34u8, 32u8, 117u8, 105u8, 100u8, 61u8, 34u8]
}

/// Appends `<?xml version="1.0" encoding="UTF-8"?>\n<event version="2.0" uid="`.
pub fn push_pli_head(v: &mut Vec<u8>)
    ensures
        final(v)@ == old(v)@ + pli_head(),
{
    let a: [u8; 65] = [60u8, 63u8, 120u8, 109u8, 108u8, 32u8, 118u8, 101u8, 114u8, 115u8, 105u8, 111u8, 110u8, 61u8, 34u8, 49u8, 46u8, 48u8, 34u8, 32u8, 101u8, 110u8, 99u8, 111u8, 100u8, 105u8, 110u8, 103u8, 61u8, 34u8, 85u8, 84u8, 70u8, 45u8, 56u8, 34u8, 63u8, 62u8, 10u8, 60u8, 101u8, 118u8, 101u8, 110u8, 116u8, 32u8, 118u8, 101u8, 114u8, 115u8, 105u8, 111u8, 110u8, 61u8, 34u8, 50u8, 46u8, 48u8, 34u8, 32u8, 117u8, 105u8, 100u8, 61u8, 34u8];
    assert(a@ =~= pli_head());
    crate::byteseq::append_bytes(v, &a);
}

/// The bytes of `" type="a-f-G-U-C" time="`.
pub open spec fn pli_type() -> Seq<u8> {
    seq![34u8, 32u8, 116u8, 121u8, 112u8, 101u8, 61u8, 34u8, 97u8, 45u8, 102u8, 45u8, 71u8, 45u8, 85u8, 45u8, 67u8, 34u8, 32u8, 116u8, 105u8, 109u8, 101u8, 61u8, 34u8]
}

/// Appends `" type="a-f-G-U-C" time="`.
pub fn push_pli_type(v: &mut Vec<u8>)
    ensures
        final(v)@ == old(v)@ + pli_type(),
{
    let a: [u8; 25] = [34u8, 32u8, 116u8, 121u8, 112u8, 101u8, 61u8, 34u8, 97u8, 45u8, 102u8, 45u8, 71u8, 45u8, 85u8, 45u8, 67u8, 34u8, 32u8, 116u8, 105u8, 109u8, 101u8, 61u8, 34u8];
    assert(a@ =~= pli_type());
    crate::byteseq::append_bytes(v, &a);
}

/// The bytes of `" start="`.
pub open spec fn synth_start() -> Seq<u8> {
    seq![34u8, 32u8, 115u8, 116u8, 97u8, 114u8, 116u8, 61u8, 34u8]
}

/// Appends `" start="`.
pub fn push_synth_start(v: &mut Vec<u8>)
    ensures
        final(v)@ == old(v)@ + synth_start(),
{
    let a: [u8; 9] = [34u8, 32u8, 115u8, 116u8, 97u8, 114u8, 116u8, 61u8, 34u8];
    assert(a@ =~= synth_start());
    crate::byteseq::append_bytes(v, &a);
}

/// The bytes of `" stale="`.
pub open spec fn synth_stale() -> Seq<u8> {
    seq![34u8, 32u8, 115u8, 116u8, 97u8, 108u8, 101u8, 61u8, 34u8]
}

/// Appends `" stale="`.
pub fn push_synth_stale(v: &mut Vec<u8>)
    ensures
        final(v)@ == old(v)@ + synth_stale(),
{
    let a: [u8; 9] = [34u8, 32u8, 115u8, 116u8, 97u8, 108u8, 101u8, 61u8, 34u8];
    assert(a@ =~= synth_stale());
    crate::byteseq::append_bytes(v, &a);
}

/// The bytes of `" how="m-g">\n    <point lat="`.
pub open spec fn pli_point() -> Seq<u8> {
    seq![34u8, 32u8, 104u8, 111u8, 119u8, 61u8, 34u8, 109u8, 45u8, 103u8, 34u8, 62u8, 10u8, 32u8, 32u8, 32u8, 32u8, 60u8, 112u8, 111u8, 105u8, 110u8, 116u8, 32u8, 108u8, 97u8, 116u8, 61u8, 34u8]
}

/// Appends `" how="m-g">\n    <point lat="`.
pub fn push_pli_point(v: &mut Vec<u8>)
    ensures
        final(v)@ == old(v)@ + pli_point(),
{
    let a: [u8; 29] = [34u8, 32u8, 104u8, 111u8, 119u8, 61u8, 34u8, 109u8, 45u8, 103u8, 34u8, 62u8, 10u8, 32u8, 32u8, 32u8, 32u8, 60u8, 112u8, 111u8, 105u8, 110u8, 116u8, 32u8, 108u8, 97u8, 116u8, 61u8, 34u8];
    assert(a@ =~= pli_point());
    crate::byteseq::append_bytes(v, &a);
}

/// The bytes of `" lon="`.
pub open spec fn pli_lon() -> Seq<u8> {
    seq![34u8, 32u8, 108u8, 111u8, 110u8, 61u8, 34u8]
}

/// Appends `" lon="`.
pub fn push_pli_lon(v: &mut Vec<u8>)
    ensures
        final(v)@ == old(v)@ + pli_lon(),
{
    let a: [u8; 7] = [34u8, 32u8, 108u8, 111u8, 110u8, 61u8, 34u8];
    assert(a@ =~= pli_lon());
    crate::byteseq::append_bytes(v, &a);
}

/// The bytes of `" hae="`.
pub open spec fn pli_hae() -> Seq<u8> {
    seq![34u8, 32u8, 104u8, 97u8, 101u8, 61u8, 34u8]
}

/// Appends `" hae="`.
pub fn push_pli_hae(v: &mut Vec<u8>)
    ensures
        final(v)@ == old(v)@ + pli_hae(),
{
    let a: [u8; 7] = [34u8, 32u8, 104u8, 97u8, 101u8, 61u8, 34u8];
    assert(a@ =~= pli_hae());
    crate::byteseq::append_bytes(v, &a);
}

/// The bytes of `" ce="10.0" le="10.0" />\n    <detail>\n        <contact callsign="`.
pub open spec fn pli_contact() -> Seq<u8> {
    seq![34u8, 32u8, 99u8, 101u8, 61u8, 34u8, 49u8, 48u8, 46u8, 48u8, 34u8, 32u8, 108u8, 101u8, 61u8, 34u8, 49u8, 48u8, 46u8, 48u8, 34u8, 32u8, 47u8, 62u8, 10u8, 32u8, 32u8, 32u8, 32u8, 60u8, 100u8, 101u8, 116u8, 97u8, 105u8, 108u8, 62u8, 10u8, 32u8, 32u8, 32u8, 32u8, 32u8, 32u8, 32u8, 32u8, 60u8, 99u8, 111u8, 110u8, 116u8, 97u8, 99u8, 116u8, 32u8, 99u8, 97u8, 108u8, 108u8, 115u8, 105u8, 103u8, 110u8, 61u8, 34u8]
}

/// Appends `" ce="10.0" le="10.0" />\n    <detail>\n        <contact callsign="`.
pub fn push_pli_contact(v: &mut Vec<u8>)
    ensures
        final(v)@ == old(v)@ + pli_contact(),
{
    let a: [u8; 65] = [34u8, 32u8, 99u8, 101u8, 61u8, 34u8, 49u8, 48u8, 46u8, 48u8, 34u8, 32u8, 108u8, 101u8, 61u8, 34u8, 49u8, 48u8, 46u8, 48u8, 34u8, 32u8, 47u8, 62u8, 10u8, 32u8, 32u8, 32u8, 32u8, 60u8, 100u8, 101u8, 116u8, 97u8, 105u8, 108u8, 62u8, 10u8, 32u8, 32u8, 32u8, 32u8, 32u8, 32u8, 32u8, 32u8, 60u8, 99u8, 111u8, 110u8, 116u8, 97u8, 99u8, 116u8, 32u8, 99u8, 97u8, 108u8, 108u8, 115u8, 105u8, 103u8, 110u8, 61u8, 34u8];
    assert(a@ =~= pli_contact());
    crate::byteseq::append_bytes(v, &a);
}

/// The bytes of `" />\n        <uid Droid="`.
pub open spec fn pli_droid() -> Seq<u8> {
    seq![34u8, 32u8, 47u8, 62u8, 10u8, 32u8, 32u8, 32u8, 32u8, 32u8, 32u8, 32u8, 32u8, 60u8, 117u8, 105u8, 100u8, 32u8, 68u8, 114u8, 111u8, 105u8, 100u8, 61u8, 34u8]
}

/// Appends `" />\n        <uid Droid="`.
pub fn push_pli_droid(v: &mut Vec<u8>)
    ensures
        final(v)@ == old(v)@ + pli_droid(),
{
    let a: [u8; 25] = [34u8, 32u8, 47u8, 62u8, 10u8, 32u8, 32u8, 32u8, 32u8, 32u8, 32u8, 32u8, 32u8, 60u8, 117u8, 105u8, 100u8, 32u8, 68u8, 114u8, 111u8, 105u8, 100u8, 61u8, 34u8];
    assert(a@ =~= pli_droid());
    crate::byteseq::append_bytes(v, &a);
}

/// The bytes of `"/>\n        <precisionlocation altsrc="???" geopointsrc="???"/>\n        <track course="0.0" speed="0.0"/>\n        <status battery="100"/>\n    </detail>\n</event>`.
pub open spec fn pli_tail() -> Seq<u8> {
    seq![34u8, 47u8, 62u8, 10u8, 32u8, 32u8, 32u8, 32u8, 32u8, 32u8, 32u8, 32u8, 60u8, 112u8, 114u8, 101u8, 99u8, 105u8, 115u8, 105u8, 111u8, 110u8, 108u8, 111u8, 99u8, 97u8, 116u8, 105u8, 111u8, 110u8, 32u8, 97u8, 108u8, 116u8, 115u8, 114u8, 99u8, 61u8, 34u8, 63u8, 63u8, 63u8, 34u8, 32u8, 103u8, 101u8, 111u8, 112u8, 111u8, 105u8, 110u8, 116u8, 115u8, 114u8, 99u8, 61u8, 34u8, 63u8, 63u8, 63u8, 34u8, 47u8, 62u8, 10u8, 32u8, 32u8, 32u8, 32u8, 32u8, 32u8, 32u8, 32u8, 60u8, 116u8, 114u8, 97u8, 99u8, 107u8, 32u8, 99u8, 111u8, 117u8, 114u8, 115u8, 101u8, 61u8, 34u8, 48u8, 46u8, 48u8, 34u8, 32u8, 115u8, 112u8, 101u8, 101u8, 100u8, 61u8, 34u8, 48u8, 46u8, 48u8, 34u8, 47u8, 62u8, 10u8, 32u8, 32u8, 32u8, 32u8, 32u8, 32u8, 32u8, 32u8, 60u8, 115u8, 116u8, 97u8, 116u8, 117u8, 115u8, 32u8, 98u8, 97u8, 116u8, 116u8, 101u8, 114u8, 121u8, 61u8, 34u8, 49u8, 48u8, 48u8, 34u8, 47u8, 62u8, 10u8, 32u8, 32u8, 32u8, 32u8, 60u8, 47u8, 100u8, 101u8, 116u8, 97u8, 105u8, 108u8, 62u8, 10u8, 60u8, 47u8, 101u8, 118u8, 101u8, 110u8, 116u8, 62u8]
}

/// Appends `"/>\n        <precisionlocation altsrc="???" geopointsrc="???"/>\n        <track course="0.0" speed="0.0"/>\n        <status battery="100"/>\n    </detail>\n</event>`.
pub fn push_pli_tail(v: &mut Vec<u8>)
    ensures
        final(v)@ == old(v)@ + pli_tail(),
{
    let a: [u8; 160] = [34u8, 47u8, 62u8, 10u8, 32u8, 32u8, 32u8, 32u8, 32u8, 32u8, 32u8, 32u8, 60u8, 112u8, 114u8, 101u8, 99u8, 105u8, 115u8, 105u8, 111u8, 110u8, 108u8, 111u8, 99u8, 97u8, 116u8, 105u8, 111u8, 110u8, 32u8, 97u8, 108u8, 116u8, 115u8, 114u8, 99u8, 61u8, 34u8, 63u8, 63u8, 63u8, 34u8, 32u8, 103u8, 101u8, 111u8, 112u8, 111u8, 105u8, 110u8, 116u8, 115u8, 114u8, 99u8, 61u8, 34u8, 63u8, 63u8, 63u8, 34u8, 47u8, 62u8, 10u8, 32u8, 32u8, 32u8, 32u8, 32u8, 32u8, 32u8, 32u8, 60u8, 116u8, 114u8, 97u8, 99u8, 107u8, 32u8, 99u8, 111u8, 117u8, 114u8, 115u8, 101u8, 61u8, 34u8, 48u8, 46u8, 48u8, 34u8, 32u8, 115u8, 112u8, 101u8, 101u8, 100u8, 61u8, 34u8, 48u8, 46u8, 48u8, 34u8, 47u8, 62u8, 10u8, 32u8, 32u8, 32u8, 32u8, 32u8, 32u8, 32u8, 32u8, 60u8, 115u8, 116u8, 97u8, 116u8, 117u8, 115u8, 32u8, 98u8, 97u8, 116u8, 116u8, 101u8, 114u8, 121u8, 61u8, 34u8, 49u8, 48u8, 48u8, 34u8, 47u8, 62u8, 10u8, 32u8, 32u8, 32u8, 32u8, 60u8, 47u8, 100u8, 101u8, 116u8, 97u8, 105u8, 108u8, 62u8, 10u8, 60u8, 47u8, 101u8, 118u8, 101u8, 110u8, 116u8, 62u8];
    assert(a@ =~= pli_tail());
    crate::byteseq::append_bytes(v, &a);
}

/// The bytes of `" type="b-t-f" time="`.
pub open spec fn chat_type() -> Seq<u8> {
    seq![34u8, 32u8, 116u8, 121u8, 112u8, 101u8, 61u8, 34u8, 98u8, 45u8, 116u8, 45u8, 102u8, 34u8, 32u8, 116u8, 105u8, 109u8, 101u8, 61u8, 34u8]
}

/// Appends `" type="b-t-f" time="`.
pub fn push_chat_type(v: &mut Vec<u8>)
    ensures
        final(v)@ == old(v)@ + chat_type(),
{
    let a: [u8; 21] = [34u8, 32u8, 116u8, 121u8, 112u8, 101u8, 61u8, 34u8, 98u8, 45u8, 116u8, 45u8, 102u8, 34u8, 32u8, 116u8, 105u8, 109u8, 101u8, 61u8, 34u8];
    assert(a@ =~= chat_type());
    crate::byteseq::append_bytes(v, &a);
}

/// The bytes of `" how="h-e">\n    <point lat="0.0" lon="0.0" hae="0.0" ce="999999.0" le="999999.0" />\n    <detail>\n        <__chat id="`.
pub open spec fn chat_point() -> Seq<u8> {
    seq![34u8, 32u8, 104u8, 111u8, 119u8, 61u8, 34u8, 104u8, 45u8, 101u8, 34u8, 62u8, 10u8, 32u8, 32u8, 32u8, 32u8, 60u8, 112u8, 111u8, 105u8, 110u8, 116u8, 32u8, 108u8, 97u8, 116u8, 61u8, 34u8, 48u8, 46u8, 48u8, 34u8, 32u8, 108u8, 111u8, 110u8, 61u8, 34u8, 48u8, 46u8, 48u8, 34u8, 32u8, 104u8, 97u8, 101u8, 61u8, 34u8, 48u8, 46u8, 48u8, 34u8, 32u8, 99u8, 101u8, 61u8, 34u8, 57u8, 57u8, 57u8, 57u8, 57u8, 57u8, 46u8, 48u8, 34u8, 32u8, 108u8, 101u8, 61u8, 34u8, 57u8, 57u8, 57u8, 57u8, 57u8, 57u8, 46u8, 48u8, 34u8, 32u8, 47u8, 62u8, 10u8, 32u8, 32u8, 32u8, 32u8, 60u8, 100u8, 101u8, 116u8, 97u8, 105u8, 108u8, 62u8, 10u8, 32u8, 32u8, 32u8, 32u8, 32u8, 32u8, 32u8, 32u8, 60u8, 95u8, 95u8, 99u8, 104u8, 97u8, 116u8, 32u8, 105u8, 100u8, 61u8, 34u8]
}

/// Appends `" how="h-e">\n    <point lat="0.0" lon="0.0" hae="0.0" ce="999999.0" le="999999.0" />\n    <detail>\n        <__chat id="`.
pub fn push_chat_point(v: &mut Vec<u8>)
    ensures
        final(v)@ == old(v)@ + chat_point(),
{
    let a: [u8; 118] = [34u8, 32u8, 104u8, 111u8, 119u8, 61u8, 34u8, 104u8, 45u8, 101u8, 34u8, 62u8, 10u8, 32u8, 32u8, 32u8, 32u8, 60u8, 112u8, 111u8, 105u8, 110u8, 116u8, 32u8, 108u8, 97u8, 116u8, 61u8, 34u8, 48u8, 46u8, 48u8, 34u8, 32u8, 108u8, 111u8, 110u8, 61u8, 34u8, 48u8, 46u8, 48u8, 34u8, 32u8, 104u8, 97u8, 101u8, 61u8, 34u8, 48u8, 46u8, 48u8, 34u8, 32u8, 99u8, 101u8, 61u8, 34u8, 57u8, 57u8, 57u8, 57u8, 57u8, 57u8, 46u8, 48u8, 34u8, 32u8, 108u8, 101u8, 61u8, 34u8, 57u8, 57u8, 57u8, 57u8, 57u8, 57u8, 46u8, 48u8, 34u8, 32u8, 47u8, 62u8, 10u8, 32u8, 32u8, 32u8, 32u8, 60u8, 100u8, 101u8, 116u8, 97u8, 105u8, 108u8, 62u8, 10u8, 32u8, 32u8, 32u8, 32u8, 32u8, 32u8, 32u8, 32u8, 60u8, 95u8, 95u8, 99u8, 104u8, 97u8, 116u8, 32u8, 105u8, 100u8, 61u8, 34u8];
    assert(a@ =~= chat_point());
    crate::byteseq::append_bytes(v, &a);
}

/// The bytes of `" chatroom="All Chat Rooms">\n            <chatgrp uid0="`.
pub open spec fn chat_group() -> Seq<u8> {
    seq![34u8, 32u8, 99u8, 104u8, 97u8, 116u8, 114u8, 111u8, 111u8, 109u8, 61u8, 34u8, 65u8, 108u8, 108u8, 32u8, 67u8, 104u8, 97u8, 116u8, 32u8, 82u8, 111u8, 111u8, 109u8, 115u8, 34u8, 62u8, 10u8, 32u8, 32u8, 32u8, 32u8, 32u8, 32u8, 32u8, 32u8, 32u8, 32u8, 32u8, 32u8, 60u8, 99u8, 104u8, 97u8, 116u8, 103u8, 114u8, 112u8, 32u8, 117u8, 105u8, 100u8, 48u8, 61u8, 34u8]
}

/// Appends `" chatroom="All Chat Rooms">\n            <chatgrp uid0="`.
pub fn push_chat_group(v: &mut Vec<u8>)
    ensures
        final(v)@ == old(v)@ + chat_group(),
{
    let a: [u8; 56] = [34u8, 32u8, 99u8, 104u8, 97u8, 116u8, 114u8, 111u8, 111u8, 109u8, 61u8, 34u8, 65u8, 108u8, 108u8, 32u8, 67u8, 104u8, 97u8, 116u8, 32u8, 82u8, 111u8, 111u8, 109u8, 115u8, 34u8, 62u8, 10u8, 32u8, 32u8, 32u8, 32u8, 32u8, 32u8, 32u8, 32u8, 32u8, 32u8, 32u8, 32u8, 60u8, 99u8, 104u8, 97u8, 116u8, 103u8, 114u8, 112u8, 32u8, 117u8, 105u8, 100u8, 48u8, 61u8, 34u8];
    assert(a@ =~= chat_group());
    crate::byteseq::append_bytes(v, &a);
}

/// The bytes of `" uid1="All Chat Rooms" id="All Chat Rooms"/>\n        </__chat>\n        <link uid="`.
pub open spec fn chat_link() -> Seq<u8> {
    seq![34u8, 32u8, 117u8, 105u8, 100u8, 49u8, 61u8, 34u8, 65u8, 108u8, 108u8, 32u8, 67u8, 104u8, 97u8, 116u8, 32u8, 82u8, 111u8, 111u8, 109u8, 115u8, 34u8, 32u8, 105u8, 100u8, 61u8, 34u8, 65u8, 108u8, 108u8, 32u8, 67u8, 104u8, 97u8, 116u8, 32u8, 82u8, 111u8, 111u8, 109u8, 115u8, 34u8, 47u8, 62u8, 10u8, 32u8, 32u8, 32u8, 32u8, 32u8, 32u8, 32u8, 32u8, 60u8, 47u8, 95u8, 95u8, 99u8, 104u8, 97u8, 116u8, 62u8, 10u8, 32u8, 32u8, 32u8, 32u8, 32u8, 32u8, 32u8, 32u8, 60u8, 108u8, 105u8, 110u8, 107u8, 32u8, 117u8, 105u8, 100u8, 61u8, 34u8]
}

/// Appends `" uid1="All Chat Rooms" id="All Chat Rooms"/>\n        </__chat>\n        <link uid="`.
pub fn push_chat_link(v: &mut Vec<u8>)
    ensures
        final(v)@ == old(v)@ + chat_link(),
{
    let a: [u8; 83] = [34u8, 32u8, 117u8, 105u8, 100u8, 49u8, 61u8, 34u8, 65u8, 108u8, 108u8, 32u8, 67u8, 104u8, 97u8, 116u8, 32u8, 82u8, 111u8, 111u8, 109u8, 115u8, 34u8, 32u8, 105u8, 100u8, 61u8, 34u8, 65u8, 108u8, 108u8, 32u8, 67u8, 104u8, 97u8, 116u8, 32u8, 82u8, 111u8, 111u8, 109u8, 115u8, 34u8, 47u8, 62u8, 10u8, 32u8, 32u8, 32u8, 32u8, 32u8, 32u8, 32u8, 32u8, 60u8, 47u8, 95u8, 95u8, 99u8, 104u8, 97u8, 116u8, 62u8, 10u8, 32u8, 32u8, 32u8, 32u8, 32u8, 32u8, 32u8, 32u8, 60u8, 108u8, 105u8, 110u8, 107u8, 32u8, 117u8, 105u8, 100u8, 61u8, 34u8];
    assert(a@ =~= chat_link());
    crate::byteseq::append_bytes(v, &a);
}

/// The bytes of `" relation="p-p" type="a-f-G-U-C"/>\n        <remarks source="BAO.F.ATAK.`.
pub open spec fn chat_remarks() -> Seq<u8> {
    seq![34u8, 32u8, 114u8, 101u8, 108u8, 97u8, 116u8, 105u8, 111u8, 110u8, 61u8, 34u8, 112u8, 45u8, 112u8, 34u8, 32u8, 116u8, 121u8, 112u8, 101u8, 61u8, 34u8, 97u8, 45u8, 102u8, 45u8, 71u8, 45u8, 85u8, 45u8, 67u8, 34u8, 47u8, 62u8, 10u8, 32u8, 32u8, 32u8, 32u8, 32u8, 32u8, 32u8, 32u8, 60u8, 114u8, 101u8, 109u8, 97u8, 114u8, 107u8, 115u8, 32u8, 115u8, 111u8, 117u8, 114u8, 99u8, 101u8, 61u8, 34u8, 66u8, 65u8, 79u8, 46u8, 70u8, 46u8, 65u8, 84u8, 65u8, 75u8, 46u8]
}

/// Appends `" relation="p-p" type="a-f-G-U-C"/>\n        <remarks source="BAO.F.ATAK.`.
pub fn push_chat_remarks(v: &mut Vec<u8>)
    ensures
        final(v)@ == old(v)@ + chat_remarks(),
{
    let a: [u8; 72] = [34u8, 32u8, 114u8, 101u8, 108u8, 97u8, 116u8, 105u8, 111u8, 110u8, 61u8, 34u8, 112u8, 45u8, 112u8, 34u8, 32u8, 116u8, 121u8, 112u8, 101u8, 61u8, 34u8, 97u8, 45u8, 102u8, 45u8, 71u8, 45u8, 85u8, 45u8, 67u8, 34u8, 47u8, 62u8, 10u8, 32u8, 32u8, 32u8, 32u8, 32u8, 32u8, 32u8, 32u8, 60u8, 114u8, 101u8, 109u8, 97u8, 114u8, 107u8, 115u8, 32u8, 115u8, 111u8, 117u8, 114u8, 99u8, 101u8, 61u8, 34u8, 66u8, 65u8, 79u8, 46u8, 70u8, 46u8, 65u8, 84u8, 65u8, 75u8, 46u8];
    assert(a@ =~= chat_remarks());
    crate::byteseq::append_bytes(v, &a);
}

/// The bytes of `" time="`.
pub open spec fn chat_time() -> Seq<u8> {
    seq![34u8, 32u8, 116u8, 105u8, 109u8, 101u8, 61u8, 34u8]
}

/// Appends `" time="`.
pub fn push_chat_time(v: &mut Vec<u8>)
    ensures
        final(v)@ == old(v)@ + chat_time(),
{
    let a: [u8; 8] = [34u8, 32u8, 116u8, 105u8, 109u8, 101u8, 61u8, 34u8];
    assert(a@ =~= chat_time());
    crate::byteseq::append_bytes(v, &a);
}

/// The bytes of `">\n            `.
pub open spec fn chat_text() -> Seq<u8> {
    seq![34u8, 62u8, 10u8, 32u8, 32u8, 32u8, 32u8, 32u8, 32u8, 32u8, 32u8, 32u8, 32u8, 32u8, 32u8]
}

/// Appends `">\n            `.
pub fn push_chat_text(v: &mut Vec<u8>)
    ensures
        final(v)@ == old(v)@ + chat_text(),
{
    let a: [u8; 15] = [34u8, 62u8, 10u8, 32u8, 32u8, 32u8, 32u8, 32u8, 32u8, 32u8, 32u8, 32u8, 32u8, 32u8, 32u8];
    assert(a@ =~= chat_text());
    crate::byteseq::append_bytes(v, &a);
}

/// The bytes of `\n        </remarks>\n    </detail>\n</event>`.
pub open spec fn chat_tail() -> Seq<u8> {
    seq![10u8, 32u8, 32u8, 32u8, 32u8, 32u8, 32u8, 32u8, 32u8, 60u8, 47u8, 114u8, 101u8, 109u8, 97u8, 114u8, 107u8, 115u8, 62u8, 10u8, 32u8, 32u8, 32u8, 32u8, 60u8, 47u8, 100u8, 101u8, 116u8, 97u8, 105u8, 108u8, 62u8, 10u8, 60u8, 47u8, 101u8, 118u8, 101u8, 110u8, 116u8, 62u8]
}

/// Appends `\n        </remarks>\n    </detail>\n</event>`.
pub fn push_chat_tail(v: &mut Vec<u8>)
    ensures
        final(v)@ == old(v)@ + chat_tail(),
{
    let a: [u8; 42] = [10u8, 32u8, 32u8, 32u8, 32u8, 32u8, 32u8, 32u8, 32u8, 60u8, 47u8, 114u8, 101u8, 109u8, 97u8, 114u8, 107u8, 115u8, 62u8, 10u8, 32u8, 32u8, 32u8, 32u8, 60u8, 47u8, 100u8, 101u8, 116u8, 97u8, 105u8, 108u8, 62u8, 10u8, 60u8, 47u8, 101u8, 118u8, 101u8, 110u8, 116u8, 62u8];
    assert(a@ =~= chat_tail());
    crate::byteseq::append_bytes(v, &a);
}

/// The bytes of `MESHTASTIC-`.
pub open spec fn mesh_uid_prefix() -> Seq<u8> {
    seq![77u8, 69u8, 83u8, 72u8, 84u8, 65u8, 83u8, 84u8, 73u8, 67u8, 45u8]
}

/// Appends `MESHTASTIC-`.
pub fn push_mesh_uid_prefix(v: &mut Vec<u8>)
    ensures
        final(v)@ == old(v)@ + mesh_uid_prefix(),
{
    let a: [u8; 11] = [77u8, 69u8, 83u8, 72u8, 84u8, 65u8, 83u8, 84u8, 73u8, 67u8, 45u8];
    assert(a@ =~= mesh_uid_prefix());
    crate::byteseq::append_bytes(v, &a);
}

/// The bytes of `Mesh-`.
pub open spec fn mesh_callsign_prefix() -> Seq<u8> {
    seq![77u8, 101u8, 115u8, 104u8, 45u8]
}

/// Appends `Mesh-`.
pub fn push_mesh_callsign_prefix(v: &mut Vec<u8>)
    ensures
        final(v)@ == old(v)@ + mesh_callsign_prefix(),
{
    let a: [u8; 5] = [77u8, 101u8, 115u8, 104u8, 45u8];
    assert(a@ =~= mesh_callsign_prefix());
    crate::byteseq::append_bytes(v, &a);
}

/// The bytes of `CoT[uid=`.
pub open spec fn summary_open() -> Seq<u8> {
    seq![67u8, 111u8, 84u8, 91u8, 117u8, 105u8, 100u8, 61u8]
}

/// Appends `CoT[uid=`.
pub fn push_summary_open(v: &mut Vec<u8>)
    ensures
        final(v)@ == old(v)@ + summary_open(),
{
    let a: [u8; 8] = [67u8, 111u8, 84u8, 91u8, 117u8, 105u8, 100u8, 61u8];
    assert(a@ =~= summary_open());
    crate::byteseq::append_bytes(v, &a);
}

/// The bytes of `, type=`.
pub open spec fn summary_type() -> Seq<u8> {
    seq![44u8, 32u8, 116u8, 121u8, 112u8, 101u8, 61u8]
}

/// Appends `, type=`.
pub fn push_summary_type(v: &mut Vec<u8>)
    ensures
        final(v)@ == old(v)@ + summary_type(),
{
    let a: [u8; 7] = [44u8, 32u8, 116u8, 121u8, 112u8, 101u8, 61u8];
    assert(a@ =~= summary_type());
    crate::byteseq::append_bytes(v, &a);
}

/// The bytes of `, lat=`.
pub open spec fn summary_lat() -> Seq<u8> {
    seq![44u8, 32u8, 108u8, 97u8, 116u8, 61u8]
}

/// Appends `, lat=`.
pub fn push_summary_lat(v: &mut Vec<u8>)
    ensures
        final(v)@ == old(v)@ + summary_lat(),
{
    let a: [u8; 6] = [44u8, 32u8, 108u8, 97u8, 116u8, 61u8];
    assert(a@ =~= summary_lat());
    crate::byteseq::append_bytes(v, &a);
}

/// The bytes of `, lon=`.
pub open spec fn summary_lon() -> Seq<u8> {
    seq![44u8, 32u8, 108u8, 111u8, 110u8, 61u8]
}

/// Appends `, lon=`.
pub fn push_summary_lon(v: &mut Vec<u8>)
    ensures
        final(v)@ == old(v)@ + summary_lon(),
{
    let a: [u8; 6] = [44u8, 32u8, 108u8, 111u8, 110u8, 61u8];
    assert(a@ =~= summary_lon());
    crate::byteseq::append_bytes(v, &a);
}

/// The bytes of `]`.
pub open spec fn summary_close() -> Seq<u8> {
    seq![93u8]
}

/// Appends `]`.
pub fn push_summary_close(v: &mut Vec<u8>)
    ensures
        final(v)@ == old(v)@ + summary_close(),
{
    let a: [u8; 1] = [93u8];
    assert(a@ =~= summary_close());
    crate::byteseq::append_bytes(v, &a);
}

} // verus!
