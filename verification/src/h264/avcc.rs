//! Rewriting encoder output in AVCC layout (each NAL unit behind a big-endian
//! length prefix) into Annex-B layout (each NAL unit behind a start code).
use core::time::Duration;
use vstd::arithmetic::div_mod::{lemma_add_mod_noop, lemma_mul_mod_noop_left};
use vstd::prelude::*;

use super::model::{annex_b_join, annex_b_start_code, avcc_length_value, avcc_scan, big_endian_value};
use super::{append_annex_b, bytes_from_vec, EncodedAccessUnit};

verus! {

/// Error of an AVCC payload whose length prefix runs past its end.
pub const AVCC_LENGTH_ERROR: &'static str = "invalid H264 AVCC payload length";

/// Shifting a byte into a machine word is multiplying by 256 and adding,
/// modulo the word.
proof fn lemma_shift_in_byte(acc: usize, b: u8)
    ensures
        ((acc << 8usize) | (b as usize)) as int == ((acc as int) * 256 + (b as int)) % (
        usize::MAX as int + 1),
{
    assert(usize::BITS == 64 ==> ((acc << 8usize) | (b as usize)) as int == ((acc as int) * 256
        + (b as int)) % 0x1_0000_0000_0000_0000int) by (bit_vector);
    assert(usize::BITS == 32 ==> ((acc << 8usize) | (b as usize)) as int == ((acc as int) * 256
        + (b as int)) % 0x1_0000_0000int) by (bit_vector);
    assert(usize::BITS == 64 ==> usize::MAX == 0xffff_ffff_ffff_ffff);
    assert(usize::BITS == 32 ==> usize::MAX == 0xffff_ffff);
}

/// Reducing before or after a shift-and-add step gives the same residue.
proof fn lemma_reduce_step(x: int, b: int, m: int)
    requires
        m > 0,
    ensures
        ((x % m) * 256 + b) % m == (x * 256 + b) % m,
{
    lemma_mul_mod_noop_left(x, 256, m);
    lemma_add_mod_noop((x % m) * 256, b, m);
    lemma_add_mod_noop(x * 256, b, m);
}

/// The NAL length that a big-endian length prefix spells, folded into a
/// `usize` byte by byte.
pub fn parse_nal_length(bytes: &[u8]) -> (n: usize)
    ensures
        n == avcc_length_value(bytes@),
{
    let mut acc: usize = 0;
    let mut i: usize = 0;
    assert(bytes@.take(0) =~= Seq::<u8>::empty());
    while i < bytes.len()
        invariant
            i <= bytes@.len(),
            acc as int == (big_endian_value(bytes@.take(i as int)) as int) % (usize::MAX as int + 1),
        decreases bytes@.len() - i,
    {
        let b = bytes[i];
        proof {
            lemma_shift_in_byte(acc, b);
            lemma_reduce_step(
                big_endian_value(bytes@.take(i as int)) as int,
                b as int,
                usize::MAX as int + 1,
            );
            assert(bytes@.take(i + 1).drop_last() =~= bytes@.take(i as int));
            assert(bytes@.take(i + 1).last() == b);
        }
        acc = (acc << 8usize) | (b as usize);
        i += 1;
    }
    assert(bytes@.take(i as int) =~= bytes@);
    acc
}

/// Appends the NAL units of an AVCC payload with `header_len`-byte length
/// prefixes to `output`, each behind `00 00 00 01`. Fewer than `header_len`
/// trailing bytes are ignored. A length that runs past the end of the payload
/// is an error; what was appended before it stays.
pub fn append_avcc_nals_as_annex_b(
    avcc_bytes: &[u8],
    header_len: usize,
    output: &mut Vec<u8>,
) -> (r: Result<(), String>)
    requires
        header_len >= 1,
    ensures
        final(output)@ == old(output)@ + avcc_scan(avcc_bytes@, header_len as nat).0,
        r is Ok <==> avcc_scan(avcc_bytes@, header_len as nat).1,
        r matches Err(e) ==> e@ == AVCC_LENGTH_ERROR@,
{
    let ghost s = avcc_bytes@;
    let ghost h = header_len as nat;
    let mut cursor: usize = 0;
    assert(s.subrange(0, s.len() as int) =~= s);
    while header_len <= avcc_bytes.len() - cursor
        invariant
            cursor <= s.len(),
            s == avcc_bytes@,
            h == header_len,
            h >= 1,
            output@ + avcc_scan(s.subrange(cursor as int, s.len() as int), h).0 == old(output)@
                + avcc_scan(s, h).0,
            avcc_scan(s.subrange(cursor as int, s.len() as int), h).1 == avcc_scan(s, h).1,
        decreases s.len() - cursor,
    {
        let ghost suffix = s.subrange(cursor as int, s.len() as int);
        let ghost before = output@;
        let nal_len = parse_nal_length(&avcc_bytes[cursor..cursor + header_len]);
        assert(suffix.subrange(0, h as int) =~= s.subrange(cursor as int, cursor + h));
        cursor += header_len;
        if nal_len > avcc_bytes.len() - cursor {
            assert(avcc_scan(suffix, h) == (Seq::<u8>::empty(), false));
            assert(before + Seq::<u8>::empty() =~= before);
            return Err(AVCC_LENGTH_ERROR.to_owned());
        }
        output.push(0);
        output.push(0);
        output.push(0);
        output.push(1);
        output.extend_from_slice(&avcc_bytes[cursor..cursor + nal_len]);
        let ghost nal = s.subrange(cursor as int, cursor + nal_len);
        assert(suffix.subrange(h as int, h + nal_len) =~= nal);
        cursor += nal_len;
        assert(suffix.subrange(h + nal_len, suffix.len() as int) =~= s.subrange(
            cursor as int,
            s.len() as int,
        ));
        assert(output@ =~= before + annex_b_start_code() + nal);
        assert(output@ + avcc_scan(s.subrange(cursor as int, s.len() as int), h).0 =~= before
            + avcc_scan(suffix, h).0);
    }
    assert(avcc_scan(s.subrange(cursor as int, s.len() as int), h) == (Seq::<u8>::empty(), true));
    assert(output@ + Seq::<u8>::empty() =~= output@);
    Ok(())
}

/// The AVCC length-prefix size that an encoder reports, at least one byte.
pub fn nal_header_length_from_reported(reported: i32) -> (n: usize)
    ensures
        n == (if reported < 1 {
            1
        } else {
            reported as int
        }),
{
    if reported < 1 {
        1
    } else {
        reported as usize
    }
}

/// One Annex-B access unit from a keyframe in AVCC layout: the parameter sets
/// first, then the NAL units of the payload, covering `duration`. The
/// encoder reports the length-prefix size as `nal_header_length`; a value
/// below one counts as one.
pub fn access_unit_from_avcc(
    parameter_sets: &[Vec<u8>],
    nal_header_length: i32,
    avcc_bytes: &[u8],
    duration: Duration,
) -> (r: Result<EncodedAccessUnit, String>)
    ensures
        ({
            let h = if nal_header_length < 1 {
                1nat
            } else {
                nal_header_length as nat
            };
            match r {
                Ok(unit) => {
                    &&& avcc_scan(avcc_bytes@, h).1
                    &&& unit.bytes() == annex_b_join(parameter_sets.deep_view()) + avcc_scan(
                        avcc_bytes@,
                        h,
                    ).0
                    &&& unit.duration == duration
                },
                Err(e) => {
                    &&& !avcc_scan(avcc_bytes@, h).1
                    &&& e@ == AVCC_LENGTH_ERROR@
                },
            }
        }),
{
    let header_len = nal_header_length_from_reported(nal_header_length);
    let mut annex_b: Vec<u8> = Vec::new();
    append_annex_b(parameter_sets, &mut annex_b);
    match append_avcc_nals_as_annex_b(avcc_bytes, header_len, &mut annex_b) {
        Ok(()) => {},
        Err(e) => return Err(e),
    }
    assert(annex_b@ =~= annex_b_join(parameter_sets.deep_view()) + avcc_scan(
        avcc_bytes@,
        header_len as nat,
    ).0);
    Ok(EncodedAccessUnit { data: bytes_from_vec(annex_b), duration })
}

} // verus!
