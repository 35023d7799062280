use std::time::Duration;

use macos_webrtc_h264::h264::avcc::{
    access_unit_from_avcc, append_avcc_nals_as_annex_b, nal_header_length_from_reported,
    parse_nal_length, AVCC_LENGTH_ERROR,
};
use macos_webrtc_h264::h264::{
    append_annex_b, copy_access_unit, find_start_code, make_access_unit, nal_unit_type,
    parse_access_units_from_aud, parse_access_units_without_aud, parse_annex_b_access_units,
    split_annex_b_nals, start_code_len, EncodedAccessUnit, AUD_WITHOUT_VIDEO_ERROR,
    NO_ACCESS_UNIT_ERROR,
};

const SC: [u8; 4] = [0, 0, 0, 1];

fn annex_b(nals: &[&[u8]]) -> Vec<u8> {
    let mut out = Vec::new();
    for nal in nals {
        out.extend_from_slice(&SC);
        out.extend_from_slice(nal);
    }
    out
}

fn bytes_of(units: &[EncodedAccessUnit]) -> Vec<Vec<u8>> {
    units.iter().map(|u| u.data.to_vec()).collect()
}

const AUD: &[u8] = &[0x09, 0xf0];
const SPS: &[u8] = &[0x67, 0x42, 0xe0, 0x1f];
const PPS: &[u8] = &[0x68, 0xce, 0x3c, 0x80];
const SEI: &[u8] = &[0x06, 0x05, 0x11];
const IDR: &[u8] = &[0x65, 0x88, 0x84];
const IDR2: &[u8] = &[0x65, 0x88, 0x99];
const SLICE: &[u8] = &[0x41, 0x9a, 0x02];
const OTHER: &[u8] = &[0x0c, 0xff];

#[test]
fn nal_unit_type_reads_low_five_bits() {
    assert_eq!(nal_unit_type(&[]), None);
    assert_eq!(nal_unit_type(&[0x65, 0x00]), Some(5));
    assert_eq!(nal_unit_type(&[0x09]), Some(9));
    assert_eq!(nal_unit_type(&[0xff]), Some(0x1f));
}

#[test]
fn find_start_code_finds_three_and_four_byte_codes() {
    let bytes = [7u8, 0, 0, 1, 5, 0, 0, 0, 1, 6];
    assert_eq!(find_start_code(&bytes, 0), Some(1));
    assert_eq!(find_start_code(&bytes, 2), Some(5));
    assert_eq!(find_start_code(&bytes, 6), Some(6));
    assert_eq!(find_start_code(&bytes, 7), None);
    assert_eq!(start_code_len(&bytes, 1), 3);
    assert_eq!(start_code_len(&bytes, 5), 4);
    // a start code in the last three bytes is not seen
    assert_eq!(find_start_code(&[9u8, 0, 0, 1], 0), None);
    assert_eq!(find_start_code(&[0u8, 0, 1], 0), None);
    assert_eq!(find_start_code(&[0u8, 0, 1, 4], 100), None);
}

#[test]
fn split_gives_nal_units_between_start_codes() {
    let bytes = [0u8, 0, 1, 0x41, 0x01, 0, 0, 0, 1, 0x41, 0x02, 0, 0, 1, 0, 0, 1, 0x65];
    assert_eq!(
        split_annex_b_nals(&bytes),
        vec![vec![0x41, 0x01], vec![0x41, 0x02], vec![0x65]]
    );
    assert!(split_annex_b_nals(&[]).is_empty());
    assert!(split_annex_b_nals(&[1, 2, 3, 4, 5]).is_empty());
    // the bytes before the first start code are dropped
    assert_eq!(split_annex_b_nals(&[7, 7, 0, 0, 0, 1, 0x41, 3]), vec![vec![0x41, 3]]);
}

#[test]
fn split_keeps_a_trailing_short_start_code_inside_the_last_unit() {
    let bytes = [0u8, 0, 0, 1, 0x41, 0x05, 0, 0, 1];
    assert_eq!(split_annex_b_nals(&bytes), vec![vec![0x41, 0x05, 0, 0, 1]]);
}

#[test]
fn split_undoes_join_for_separable_nal_units() {
    let nals: Vec<Vec<u8>> = vec![
        SPS.to_vec(),
        PPS.to_vec(),
        vec![0x65, 0, 0, 2, 0, 3, 0x80],
        vec![0x65, 0],
        vec![0x41, 0, 0],
        vec![0],
        SLICE.to_vec(),
        vec![0x41, 7, 0, 0],
    ];
    let mut joined = Vec::new();
    append_annex_b(&nals, &mut joined);
    assert_eq!(split_annex_b_nals(&joined), nals);
}

#[test]
fn make_access_unit_lays_out_annex_b() {
    let d = Duration::from_millis(66);
    let au = make_access_unit(&[SPS.to_vec(), IDR.to_vec()], d);
    assert_eq!(au.data.to_vec(), annex_b(&[SPS, IDR]));
    assert_eq!(au.duration, d);
    let empty = make_access_unit(&[], d);
    assert!(empty.data.is_empty());
}

#[test]
fn copy_access_unit_keeps_bytes_and_duration() {
    let au = make_access_unit(&[SLICE.to_vec()], Duration::from_millis(5));
    let copy = copy_access_unit(&au);
    assert_eq!(copy.data, au.data);
    assert_eq!(copy.duration, au.duration);
    let cloned = au.clone();
    assert_eq!(cloned.data, au.data);
}

#[test]
fn parse_empty_stream_gives_no_access_units() {
    let d = Duration::from_millis(66);
    assert!(parse_annex_b_access_units(&[], d).unwrap().is_empty());
    assert!(parse_annex_b_access_units(&[1, 2, 3, 4, 5, 6], d).unwrap().is_empty());
}

#[test]
fn parse_cuts_at_access_unit_delimiters() {
    let d = Duration::from_millis(66);
    let stream = annex_b(&[AUD, SPS, PPS, IDR, AUD, SLICE, AUD, AUD, SLICE]);
    let units = parse_annex_b_access_units(&stream, d).unwrap();
    assert_eq!(
        bytes_of(&units),
        vec![annex_b(&[SPS, PPS, IDR]), annex_b(&[SLICE]), annex_b(&[SLICE])]
    );
    assert!(units.iter().all(|u| u.duration == d));
}

#[test]
fn parse_with_delimiters_keeps_every_video_nal_in_order() {
    let d = Duration::from_millis(40);
    let nals: [&[u8]; 7] = [SEI, AUD, SPS, IDR, AUD, OTHER, SLICE];
    let units = parse_annex_b_access_units(&annex_b(&nals), d).unwrap();
    let joined: Vec<u8> = bytes_of(&units).concat();
    assert_eq!(joined, annex_b(&[SEI, SPS, IDR, OTHER, SLICE]));
}

#[test]
fn parse_of_only_delimiters_is_an_error() {
    let d = Duration::from_millis(66);
    let err = parse_annex_b_access_units(&annex_b(&[AUD, AUD]), d).unwrap_err();
    assert_eq!(err, AUD_WITHOUT_VIDEO_ERROR);
    assert_eq!(err, "Annex-B stream contained AUD markers but no video access units");
}

#[test]
fn parse_without_delimiters_groups_by_slice() {
    let d = Duration::from_millis(66);
    let stream = annex_b(&[SPS, PPS, IDR, SLICE, OTHER, SEI, IDR2, SLICE]);
    let units = parse_annex_b_access_units(&stream, d).unwrap();
    assert_eq!(
        bytes_of(&units),
        vec![
            annex_b(&[SPS, PPS, IDR]),
            annex_b(&[SLICE]),
            annex_b(&[SPS, PPS, SEI, IDR2]),
            annex_b(&[SLICE]),
        ]
    );
    // one access unit per slice NAL unit
    assert_eq!(units.len(), 4);
}

#[test]
fn parse_without_any_slice_is_an_error() {
    let d = Duration::from_millis(66);
    let err = parse_annex_b_access_units(&annex_b(&[SPS, PPS, OTHER]), d).unwrap_err();
    assert_eq!(err, NO_ACCESS_UNIT_ERROR);
    assert!(err.starts_with("unable to derive access units from Annex-B stream"));
}

#[test]
fn parse_accepts_three_byte_start_codes() {
    let d = Duration::from_millis(10);
    let stream = [0u8, 0, 1, 0x41, 0x01, 0, 0, 1, 0x41, 0x02];
    let units = parse_annex_b_access_units(&stream, d).unwrap();
    assert_eq!(bytes_of(&units), vec![annex_b(&[&[0x41, 0x01]]), annex_b(&[&[0x41, 0x02]])]);
}

#[test]
fn grouping_functions_take_nal_unit_lists() {
    let d = Duration::from_millis(1);
    let nals = vec![AUD.to_vec(), SLICE.to_vec()];
    assert_eq!(bytes_of(&parse_access_units_from_aud(&nals, d).unwrap()), vec![annex_b(&[SLICE])]);
    let nals = vec![SPS.to_vec(), IDR.to_vec()];
    assert_eq!(
        bytes_of(&parse_access_units_without_aud(&nals, d).unwrap()),
        vec![annex_b(&[SPS, IDR])]
    );
    assert!(parse_access_units_from_aud(&[], d).is_err());
    assert!(parse_access_units_without_aud(&[], d).is_err());
}

#[test]
fn nal_length_is_big_endian() {
    assert_eq!(parse_nal_length(&[]), 0);
    assert_eq!(parse_nal_length(&[7]), 7);
    assert_eq!(parse_nal_length(&[0, 0, 1, 2]), 258);
    assert_eq!(parse_nal_length(&[1, 0]), 256);
}

#[test]
fn nal_length_wraps_in_a_machine_word() {
    assert_eq!(parse_nal_length(&[1, 0, 0, 0, 0, 0, 0, 0, 0]), 0);
    assert_eq!(parse_nal_length(&[1, 0, 0, 0, 0, 0, 0, 0, 5]), 5);
}

#[test]
fn avcc_is_rewritten_to_annex_b() {
    let avcc = [0u8, 0, 0, 3, 0x65, 0x88, 0x84, 0, 0, 0, 2, 0x41, 0x9a, 0, 0];
    let mut out = vec![0xaa];
    assert_eq!(append_avcc_nals_as_annex_b(&avcc, 4, &mut out), Ok(()));
    let mut expected = vec![0xaa];
    expected.extend(annex_b(&[IDR, &[0x41, 0x9a]]));
    assert_eq!(out, expected);
}

#[test]
fn avcc_with_a_length_past_the_end_is_an_error() {
    let avcc = [0u8, 2, 0x41, 0x9a, 0, 9, 0x65];
    let mut out = Vec::new();
    let err = append_avcc_nals_as_annex_b(&avcc, 2, &mut out).unwrap_err();
    assert_eq!(err, AVCC_LENGTH_ERROR);
    assert_eq!(err, "invalid H264 AVCC payload length");
    // what came before the bad length was written
    assert_eq!(out, annex_b(&[&[0x41, 0x9a]]));
}

#[test]
fn avcc_of_length_prefixed_units_gives_their_annex_b_join() {
    let nals: [&[u8]; 3] = [SPS, PPS, IDR];
    for width in [1usize, 2, 4] {
        let mut avcc = Vec::new();
        for nal in nals {
            let len = nal.len().to_be_bytes();
            avcc.extend_from_slice(&len[len.len() - width..]);
            avcc.extend_from_slice(nal);
        }
        let mut out = Vec::new();
        append_avcc_nals_as_annex_b(&avcc, width, &mut out).unwrap();
        assert_eq!(out, annex_b(&nals));
    }
}

#[test]
fn header_length_is_at_least_one() {
    assert_eq!(nal_header_length_from_reported(4), 4);
    assert_eq!(nal_header_length_from_reported(0), 1);
    assert_eq!(nal_header_length_from_reported(-3), 1);
}

#[test]
fn keyframe_access_unit_puts_parameter_sets_first() {
    let d = Duration::from_millis(66);
    let params = vec![SPS.to_vec(), PPS.to_vec()];
    let avcc = [3u8, 0x65, 0x88, 0x84];
    let au = access_unit_from_avcc(&params, 0, &avcc, d).unwrap();
    assert_eq!(au.data.to_vec(), annex_b(&[SPS, PPS, IDR]));
    assert_eq!(au.duration, d);
    let err = access_unit_from_avcc(&params, 1, &[9u8, 1], d).unwrap_err();
    assert_eq!(err, AVCC_LENGTH_ERROR);
}

#[test]
fn keyframe_unit_splits_back_into_parameter_sets_and_nal_units() {
    let params = vec![SPS.to_vec(), PPS.to_vec()];
    let nals: Vec<Vec<u8>> = vec![IDR.to_vec(), vec![0x06, 0, 0, 3, 0x80]];
    let mut avcc = Vec::new();
    for nal in &nals {
        avcc.extend_from_slice(&(nal.len() as u32).to_be_bytes());
        avcc.extend_from_slice(nal);
    }
    let au = access_unit_from_avcc(&params, 4, &avcc, Duration::from_millis(66)).unwrap();
    let mut expected = params.clone();
    expected.extend(nals);
    assert_eq!(split_annex_b_nals(&au.data), expected);
}
