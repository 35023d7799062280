//! H.264 access units: splitting an Annex-B byte stream into NAL units,
//! grouping them into access units, and laying NAL units out with start
//! codes.
use bytes::Bytes;
use core::time::Duration;
use vstd::prelude::*;
use vstd::slice::slice_to_vec;

pub mod model;
pub mod avcc;
pub mod proofs;

use model::{
    access_units_by_aud, access_units_by_slice, annex_b_access_units, annex_b_join,
    annex_b_nal_units, annex_b_start_code, aud_scan, has_aud, is_aud, lemma_next_start_code,
    nal_units_from, next_start_code, slice_scan, spec_nal_unit_type, start_code_at,
    start_code_length,
};

verus! {

#[verifier::external_type_specification]
#[verifier::external_body]
pub struct ExBytes(bytes::Bytes);

/// The bytes that a `bytes::Bytes` handle refers to.
pub uninterp spec fn bytes_contents(b: Bytes) -> Seq<u8>;

/// Calls `Bytes::from(Vec<u8>)`, which takes over the vector's buffer: the
/// handle refers to exactly the bytes the vector held, in order.
#[verifier::external_body]
fn bytes_from_vec(v: Vec<u8>) -> (b: Bytes)
    ensures
        bytes_contents(b) == v@,
{
    Bytes::from(v)
}

/// `Bytes::clone` hands out a second handle to the same shared buffer: the
/// clone refers to the same bytes.
pub assume_specification[ <Bytes as Clone>::clone ](b: &Bytes) -> (r: Bytes)
    ensures
        bytes_contents(r) == bytes_contents(*b),
;

/// `Duration` is `Copy`; its clone is the same value.
pub assume_specification[ <Duration as Clone>::clone ](d: &Duration) -> (r: Duration)
    ensures
        r == *d,
;

/// One encoded H.264 access unit in Annex-B layout, with the time it covers.
#[derive(Clone, Debug)]
pub struct EncodedAccessUnit {
    pub data: Bytes,
    pub duration: Duration,
}

impl EncodedAccessUnit {
    /// The encoded bytes of this access unit.
    pub open spec fn bytes(self) -> Seq<u8> {
        bytes_contents(self.data)
    }
}

broadcast use model::lemma_byte_vec_deep_view;

impl View for EncodedAccessUnit {
    type V = (Seq<u8>, Duration);

    /// The encoded bytes and the duration.
    open spec fn view(&self) -> (Seq<u8>, Duration) {
        (bytes_contents(self.data), self.duration)
    }
}

/// A second access unit with the same bytes and duration, sharing the buffer.
pub fn copy_access_unit(unit: &EncodedAccessUnit) -> (copy: EncodedAccessUnit)
    ensures
        copy@ == unit@,
{
    EncodedAccessUnit { data: unit.data.clone(), duration: unit.duration }
}

/// The bytes of each access unit, in order.
pub open spec fn access_unit_bytes(units: Seq<EncodedAccessUnit>) -> Seq<Seq<u8>> {
    units.map_values(|u: EncodedAccessUnit| u.bytes())
}

/// Every access unit covers `duration`.
pub open spec fn all_cover(units: Seq<EncodedAccessUnit>, duration: Duration) -> bool {
    forall|k: int| 0 <= k < units.len() ==> #[trigger] units[k].duration == duration
}

/// Error of a delimited stream in which every NAL unit is a delimiter.
pub const AUD_WITHOUT_VIDEO_ERROR: &'static str =
    "Annex-B stream contained AUD markers but no video access units";

/// Error of an undelimited stream that holds no slice NAL unit.
pub const NO_ACCESS_UNIT_ERROR: &'static str =
    "unable to derive access units from Annex-B stream; add AUD NALs or provide a simpler H264 elementary stream";

/// The NAL unit type: the low five bits of the header byte, if there is one.
pub fn nal_unit_type(nal: &[u8]) -> (t: Option<u8>)
    ensures
        t == spec_nal_unit_type(nal@),
{
    if nal.len() == 0 {
        None
    } else {
        Some(nal[0] & 0x1f)
    }
}

/// The first position at or after `from` where a three- or four-byte start
/// code begins with at least four bytes of the stream left.
pub fn find_start_code(bytes: &[u8], from: usize) -> (r: Option<usize>)
    ensures
        match r {
            Some(i) => next_start_code(bytes@, from as int) == Some(i as int),
            None => next_start_code(bytes@, from as int) is None,
        },
{
    let mut cursor = from;
    while cursor < bytes.len() && bytes.len() - cursor > 3
        invariant
            from <= cursor,
            next_start_code(bytes@, from as int) == next_start_code(bytes@, cursor as int),
        decreases bytes.len() - cursor,
    {
        if bytes[cursor] == 0 && bytes[cursor + 1] == 0 && (bytes[cursor + 2] == 1 || (
        bytes[cursor + 2] == 0 && bytes[cursor + 3] == 1)) {
            return Some(cursor);
        }
        cursor += 1;
    }
    None
}

/// Four when `00 00 00 01` begins at `start`, else three.
pub fn start_code_len(bytes: &[u8], start: usize) -> (n: usize)
    requires
        start <= bytes@.len(),
    ensures
        n == start_code_length(bytes@, start as int),
{
    if bytes.len() - start >= 4 && bytes[start] == 0 && bytes[start + 1] == 0 && bytes[start
        + 2] == 0 && bytes[start + 3] == 1 {
        4
    } else {
        3
    }
}

/// Splits an Annex-B byte stream into its NAL units.
pub fn split_annex_b_nals(bytes: &[u8]) -> (nal_units: Vec<Vec<u8>>)
    ensures
        nal_units.deep_view() == annex_b_nal_units(bytes@),
{
    let mut nal_units: Vec<Vec<u8>> = Vec::new();
    let mut cursor: usize = 0;
    loop
        invariant_except_break
            cursor <= bytes@.len(),
            nal_units.deep_view() + nal_units_from(bytes@, cursor as int) == annex_b_nal_units(
                bytes@,
            ),
        ensures
            nal_units.deep_view() == annex_b_nal_units(bytes@),
        decreases bytes@.len() - cursor,
    {
        let ghost before = nal_units.deep_view();
        match find_start_code(bytes, cursor) {
            None => {
                assert(nal_units_from(bytes@, cursor as int) =~= seq![]);
                assert(before + seq![] =~= before);
                break ;
            },
            Some(start) => {
                proof {
                    lemma_next_start_code(bytes@, cursor as int);
                }
                assert(start_code_at(bytes@, start as int));
                assert(start + 3 < bytes@.len());
                let code_len = start_code_len(bytes, start);
                assert(code_len <= 4);
                assert(bytes@.len() == bytes.len());
                let nal_start = start + code_len;
                match find_start_code(bytes, nal_start) {
                    None => {
                        if nal_start < bytes.len() {
                            let nal = slice_to_vec(&bytes[nal_start..bytes.len()]);
                            nal_units.push(nal);
                            assert(nal_units.deep_view() =~= before.push(nal@));
                        } else {
                            assert(before + seq![] =~= before);
                        }
                        break ;
                    },
                    Some(next_start) => {
                        proof {
                            lemma_next_start_code(bytes@, nal_start as int);
                        }
                        if nal_start < next_start {
                            let nal = slice_to_vec(&bytes[nal_start..next_start]);
                            nal_units.push(nal);
                            assert(nal_units.deep_view() =~= before.push(nal@));
                            assert(before + nal_units_from(bytes@, cursor as int) =~= before.push(
                                nal@,
                            ) + nal_units_from(bytes@, next_start as int));
                        } else {
                            assert(before + nal_units_from(bytes@, cursor as int) =~= before
                                + nal_units_from(bytes@, next_start as int));
                        }
                        cursor = next_start;
                    },
                }
            },
        }
    }
    nal_units
}

/// A copy of a list of NAL units.
fn copy_nal_units(nal_units: &[Vec<u8>]) -> (copy: Vec<Vec<u8>>)
    ensures
        copy.deep_view() == nal_units.deep_view(),
{
    let mut copy: Vec<Vec<u8>> = Vec::new();
    let mut i: usize = 0;
    while i < nal_units.len()
        invariant
            i <= nal_units@.len(),
            copy.deep_view() == nal_units.deep_view().take(i as int),
        decreases nal_units@.len() - i,
    {
        let nal = slice_to_vec(nal_units[i].as_slice());
        copy.push(nal);
        assert(nal_units.deep_view().take(i + 1) =~= nal_units.deep_view().take(i as int).push(
            nal@,
        ));
        assert(copy.deep_view() =~= nal_units.deep_view().take(i + 1));
        i += 1;
    }
    assert(nal_units.deep_view().take(i as int) =~= nal_units.deep_view());
    copy
}

/// Appends each NAL unit to `output` behind a four-byte start code.
pub fn append_annex_b(nal_units: &[Vec<u8>], output: &mut Vec<u8>)
    ensures
        final(output)@ == old(output)@ + annex_b_join(nal_units.deep_view()),
{
    let mut i: usize = 0;
    while i < nal_units.len()
        invariant
            i <= nal_units@.len(),
            output@ == old(output)@ + annex_b_join(nal_units.deep_view().take(i as int)),
        decreases nal_units@.len() - i,
    {
        let ghost prefix = output@;
        output.push(0);
        output.push(0);
        output.push(0);
        output.push(1);
        output.extend_from_slice(nal_units[i].as_slice());
        let ghost nals = nal_units.deep_view();
        assert(nals.take(i + 1).drop_last() =~= nals.take(i as int));
        assert(nals.take(i + 1).last() == nal_units[i as int]@);
        assert(output@ =~= prefix + annex_b_start_code() + nal_units[i as int]@);
        i += 1;
    }
    assert(nal_units.deep_view().take(i as int) =~= nal_units.deep_view());
}

/// One access unit: the NAL units in Annex-B form, covering `duration`.
pub fn make_access_unit(nal_units: &[Vec<u8>], duration: Duration) -> (au: EncodedAccessUnit)
    ensures
        au.bytes() == annex_b_join(nal_units.deep_view()),
        au.duration == duration,
{
    let mut data: Vec<u8> = Vec::new();
    append_annex_b(nal_units, &mut data);
    assert(data@ =~= annex_b_join(nal_units.deep_view()));
    EncodedAccessUnit { data: bytes_from_vec(data), duration }
}

/// Groups NAL units into access units at AUD delimiters.
pub fn parse_access_units_from_aud(nal_units: &[Vec<u8>], duration: Duration) -> (r: Result<
    Vec<EncodedAccessUnit>,
    String,
>)
    ensures
        match r {
            Ok(units) => {
                &&& access_units_by_aud(nal_units.deep_view()).len() > 0
                &&& access_unit_bytes(units@) == access_units_by_aud(nal_units.deep_view())
                &&& all_cover(units@, duration)
            },
            Err(e) => {
                &&& access_units_by_aud(nal_units.deep_view()).len() == 0
                &&& e@ == AUD_WITHOUT_VIDEO_ERROR@
            },
        },
{
    let ghost nals = nal_units.deep_view();
    let mut access_units: Vec<EncodedAccessUnit> = Vec::new();
    let mut current: Vec<Vec<u8>> = Vec::new();
    let mut i: usize = 0;
    while i < nal_units.len()
        invariant
            i <= nal_units@.len(),
            nals == nal_units.deep_view(),
            access_unit_bytes(access_units@) == aud_scan(nals.take(i as int)).0,
            current.deep_view() == aud_scan(nals.take(i as int)).1,
            all_cover(access_units@, duration),
        decreases nal_units@.len() - i,
    {
        let ghost units_before = access_unit_bytes(access_units@);
        let ghost current_before = current.deep_view();
        assert(nals.take(i + 1).drop_last() =~= nals.take(i as int));
        assert(nals.take(i + 1).last() == nals[i as int]);
        if nal_unit_type(nal_units[i].as_slice()) == Some(9u8) {
            if current.len() > 0 {
                let au = make_access_unit(current.as_slice(), duration);
                access_units.push(au);
                assert(access_unit_bytes(access_units@) =~= units_before.push(
                    annex_b_join(current_before),
                ));
                current.clear();
                assert(current.deep_view() =~= seq![]);
            } else {
                current.clear();
                assert(current.deep_view() =~= seq![]);
            }
        } else {
            let nal = slice_to_vec(nal_units[i].as_slice());
            current.push(nal);
            assert(current.deep_view() =~= current_before.push(nals[i as int]));
        }
        i += 1;
    }
    assert(nals.take(i as int) =~= nals);
    if current.len() > 0 {
        let ghost units_before = access_unit_bytes(access_units@);
        let au = make_access_unit(current.as_slice(), duration);
        access_units.push(au);
        assert(access_unit_bytes(access_units@) =~= units_before.push(
            annex_b_join(current.deep_view()),
        ));
    }
    if access_units.len() == 0 {
        return Err(AUD_WITHOUT_VIDEO_ERROR.to_owned());
    }
    Ok(access_units)
}

/// Groups NAL units into access units by their slices: parameter NAL units
/// are gathered and put in front of every IDR slice.
pub fn parse_access_units_without_aud(nal_units: &[Vec<u8>], duration: Duration) -> (r: Result<
    Vec<EncodedAccessUnit>,
    String,
>)
    ensures
        match r {
            Ok(units) => {
                &&& access_units_by_slice(nal_units.deep_view()).len() > 0
                &&& access_unit_bytes(units@) == access_units_by_slice(nal_units.deep_view())
                &&& all_cover(units@, duration)
            },
            Err(e) => {
                &&& access_units_by_slice(nal_units.deep_view()).len() == 0
                &&& e@ == NO_ACCESS_UNIT_ERROR@
            },
        },
{
    let ghost nals = nal_units.deep_view();
    let mut access_units: Vec<EncodedAccessUnit> = Vec::new();
    let mut parameter_sets: Vec<Vec<u8>> = Vec::new();
    let mut i: usize = 0;
    while i < nal_units.len()
        invariant
            i <= nal_units@.len(),
            nals == nal_units.deep_view(),
            access_unit_bytes(access_units@) == slice_scan(nals.take(i as int)).0,
            parameter_sets.deep_view() == slice_scan(nals.take(i as int)).1,
            all_cover(access_units@, duration),
        decreases nal_units@.len() - i,
    {
        let ghost units_before = access_unit_bytes(access_units@);
        let ghost params_before = parameter_sets.deep_view();
        assert(nals.take(i + 1).drop_last() =~= nals.take(i as int));
        assert(nals.take(i + 1).last() == nals[i as int]);
        let nal_type = nal_unit_type(nal_units[i].as_slice());
        if nal_type == Some(7u8) || nal_type == Some(8u8) || nal_type == Some(6u8) {
            let nal = slice_to_vec(nal_units[i].as_slice());
            parameter_sets.push(nal);
            assert(parameter_sets.deep_view() =~= params_before.push(nals[i as int]));
        } else if nal_type == Some(5u8) {
            let mut grouped = copy_nal_units(parameter_sets.as_slice());
            let nal = slice_to_vec(nal_units[i].as_slice());
            grouped.push(nal);
            assert(grouped.deep_view() =~= params_before.push(nals[i as int]));
            let au = make_access_unit(grouped.as_slice(), duration);
            access_units.push(au);
            assert(access_unit_bytes(access_units@) =~= units_before.push(
                annex_b_join(params_before.push(nals[i as int])),
            ));
        } else if nal_type == Some(1u8) {
            let mut single: Vec<Vec<u8>> = Vec::new();
            single.push(slice_to_vec(nal_units[i].as_slice()));
            assert(single.deep_view() =~= seq![nals[i as int]]);
            let au = make_access_unit(single.as_slice(), duration);
            access_units.push(au);
            assert(access_unit_bytes(access_units@) =~= units_before.push(
                annex_b_join(seq![nals[i as int]]),
            ));
        }
        i += 1;
    }
    assert(nals.take(i as int) =~= nals);
    if access_units.len() == 0 {
        return Err(NO_ACCESS_UNIT_ERROR.to_owned());
    }
    Ok(access_units)
}

/// Splits an Annex-B H.264 elementary stream into access units that each
/// cover `duration`. A stream with no NAL unit gives none; one with AUD
/// NAL units is cut at them; one without is cut at its slices. A stream whose
/// NAL units make no access unit is an error.
pub fn parse_annex_b_access_units(bytes: &[u8], duration: Duration) -> (r: Result<
    Vec<EncodedAccessUnit>,
    String,
>)
    ensures
        match r {
            Ok(units) => {
                &&& (annex_b_nal_units(bytes@).len() == 0 || annex_b_access_units(bytes@).len()
                    > 0)
                &&& access_unit_bytes(units@) == annex_b_access_units(bytes@)
                &&& all_cover(units@, duration)
            },
            Err(e) => {
                &&& annex_b_nal_units(bytes@).len() > 0
                &&& annex_b_access_units(bytes@).len() == 0
                &&& e@ == (if has_aud(annex_b_nal_units(bytes@)) {
                    AUD_WITHOUT_VIDEO_ERROR@
                } else {
                    NO_ACCESS_UNIT_ERROR@
                })
            },
        },
{
    let nal_units = split_annex_b_nals(bytes);
    let ghost nals = nal_units.deep_view();
    if nal_units.len() == 0 {
        assert(nals =~= seq![]);
        assert(!has_aud(nals));
        let empty: Vec<EncodedAccessUnit> = Vec::new();
        assert(access_unit_bytes(empty@) =~= seq![]);
        assert(slice_scan(nals) == (Seq::<Seq<u8>>::empty(), Seq::<Seq<u8>>::empty()));
        return Ok(empty);
    }
    let mut any_aud = false;
    let mut i: usize = 0;
    while i < nal_units.len()
        invariant
            i <= nal_units@.len(),
            nals == nal_units.deep_view(),
            any_aud == exists|j: int| 0 <= j < i && #[trigger] is_aud(nals[j]),
        decreases nal_units@.len() - i,
    {
        assert(nals[i as int] == nal_units[i as int]@);
        let is_delimiter = nal_unit_type(nal_units[i].as_slice()) == Some(9u8);
        assert(is_delimiter == is_aud(nals[i as int]));
        if is_delimiter {
            any_aud = true;
        }
        i += 1;
    }
    if any_aud {
        return parse_access_units_from_aud(nal_units.as_slice(), duration);
    }
    parse_access_units_without_aud(nal_units.as_slice(), duration)
}

} // verus!
