//! The mathematical model of H.264 byte-stream framing: start codes, the NAL
//! units between them, the grouping of NAL units into access units, and the
//! AVCC length-prefixed layout.
use vstd::prelude::*;

verus! {

/// A byte vector's deep view is its plain view.
pub broadcast proof fn lemma_byte_vec_deep_view(v: Vec<u8>)
    ensures
        #[trigger] v.deep_view() == v@,
{
    assert(v.deep_view() =~= v@);
}

/// The four-byte Annex-B start code that this library writes.
pub open spec fn annex_b_start_code() -> Seq<u8> {
    seq![0u8, 0u8, 0u8, 1u8]
}

/// A start code (`00 00 01` or `00 00 00 01`) begins at `i`, and at least four
/// bytes of the stream remain from `i` on.
pub open spec fn start_code_at(s: Seq<u8>, i: int) -> bool {
    &&& 0 <= i
    &&& i + 3 < s.len()
    &&& s[i] == 0
    &&& s[i + 1] == 0
    &&& (s[i + 2] == 1 || (s[i + 2] == 0 && s[i + 3] == 1))
}

/// The first position at or after `from` where a start code begins.
pub open spec fn next_start_code(s: Seq<u8>, from: int) -> Option<int>
    decreases s.len() - from,
{
    if from + 3 >= s.len() {
        None
    } else if start_code_at(s, from) {
        Some(from)
    } else {
        next_start_code(s, from + 1)
    }
}

/// The length of the start code at `i`: four for `00 00 00 01`, else three.
pub open spec fn start_code_length(s: Seq<u8>, i: int) -> int {
    if 0 <= i && i + 4 <= s.len() && s[i] == 0 && s[i + 1] == 0 && s[i + 2] == 0 && s[i + 3]
        == 1 {
        4
    } else {
        3
    }
}

pub proof fn lemma_next_start_code(s: Seq<u8>, from: int)
    ensures
        match next_start_code(s, from) {
            Some(i) => {
                &&& from <= i
                &&& start_code_at(s, i)
                &&& forall|j: int| from <= j < i ==> !start_code_at(s, j)
            },
            None => forall|j: int| from <= j ==> !start_code_at(s, j),
        },
    decreases s.len() - from,
{
    if from + 3 >= s.len() {
    } else if start_code_at(s, from) {
    } else {
        lemma_next_start_code(s, from + 1);
    }
}

/// The NAL units of the stream from `cursor` on: the non-empty byte runs that
/// follow a start code, each ending where the next start code begins or at the
/// end of the stream.
pub open spec fn nal_units_from(s: Seq<u8>, cursor: int) -> Seq<Seq<u8>>
    decreases s.len() - cursor,
{
    match next_start_code(s, cursor) {
        None => seq![],
        Some(start) => {
            let nal_start = start + start_code_length(s, start);
            match next_start_code(s, nal_start) {
                None => if nal_start < s.len() {
                    seq![s.subrange(nal_start, s.len() as int)]
                } else {
                    seq![]
                },
                Some(next) => {
                    proof {
                        lemma_next_start_code(s, cursor);
                        lemma_next_start_code(s, nal_start);
                    }
                    (if nal_start < next {
                        seq![s.subrange(nal_start, next)]
                    } else {
                        seq![]
                    }) + nal_units_from(s, next)
                },
            }
        },
    }
}

/// The NAL units of an Annex-B byte stream, in stream order.
pub open spec fn annex_b_nal_units(s: Seq<u8>) -> Seq<Seq<u8>> {
    nal_units_from(s, 0)
}

/// NAL units laid out in Annex-B form: each one preceded by `00 00 00 01`.
pub open spec fn annex_b_join(nals: Seq<Seq<u8>>) -> Seq<u8>
    decreases nals.len(),
{
    if nals.len() == 0 {
        seq![]
    } else {
        annex_b_join(nals.drop_last()) + annex_b_start_code() + nals.last()
    }
}

/// The type of a NAL unit: the low five bits of its first byte.
pub open spec fn spec_nal_unit_type(nal: Seq<u8>) -> Option<u8> {
    if nal.len() == 0 {
        None
    } else {
        Some(nal[0] & 0x1f)
    }
}

/// NAL unit type of an access unit delimiter.
pub open spec fn is_aud(nal: Seq<u8>) -> bool {
    spec_nal_unit_type(nal) == Some(9u8)
}

pub open spec fn has_aud(nals: Seq<Seq<u8>>) -> bool {
    exists|i: int| 0 <= i < nals.len() && #[trigger] is_aud(nals[i])
}

/// Scanning NAL units with delimiters: the access units completed so far, and
/// the NAL units of the one being gathered.
pub open spec fn aud_scan(nals: Seq<Seq<u8>>) -> (Seq<Seq<u8>>, Seq<Seq<u8>>)
    decreases nals.len(),
{
    if nals.len() == 0 {
        (seq![], seq![])
    } else {
        let (units, current) = aud_scan(nals.drop_last());
        let nal = nals.last();
        if is_aud(nal) {
            if current.len() > 0 {
                (units.push(annex_b_join(current)), seq![])
            } else {
                (units, seq![])
            }
        } else {
            (units, current.push(nal))
        }
    }
}

/// Access units delimited by AUD NAL units: each run of other NAL units
/// between delimiters (or the ends of the stream) is one access unit; the
/// delimiters themselves are left out and empty runs give nothing.
pub open spec fn access_units_by_aud(nals: Seq<Seq<u8>>) -> Seq<Seq<u8>> {
    let (units, current) = aud_scan(nals);
    if current.len() > 0 {
        units.push(annex_b_join(current))
    } else {
        units
    }
}

/// A NAL unit that carries stream parameters: SPS (7), PPS (8) or SEI (6).
pub open spec fn is_parameter_nal(nal: Seq<u8>) -> bool {
    spec_nal_unit_type(nal) == Some(7u8) || spec_nal_unit_type(nal) == Some(8u8)
        || spec_nal_unit_type(nal) == Some(6u8)
}

/// Scanning NAL units without delimiters: the access units so far, and every
/// parameter NAL unit seen so far.
pub open spec fn slice_scan(nals: Seq<Seq<u8>>) -> (Seq<Seq<u8>>, Seq<Seq<u8>>)
    decreases nals.len(),
{
    if nals.len() == 0 {
        (seq![], seq![])
    } else {
        let (units, params) = slice_scan(nals.drop_last());
        let nal = nals.last();
        if is_parameter_nal(nal) {
            (units, params.push(nal))
        } else if spec_nal_unit_type(nal) == Some(5u8) {
            (units.push(annex_b_join(params.push(nal))), params)
        } else if spec_nal_unit_type(nal) == Some(1u8) {
            (units.push(annex_b_join(seq![nal])), params)
        } else {
            (units, params)
        }
    }
}

/// Access units without delimiters: each IDR slice (5) comes with every
/// parameter NAL unit seen before it, each non-IDR slice (1) stands alone, and
/// all other NAL units are dropped.
pub open spec fn access_units_by_slice(nals: Seq<Seq<u8>>) -> Seq<Seq<u8>> {
    slice_scan(nals).0
}

/// The access units of an Annex-B byte stream: by delimiters where the stream
/// has any, else by slices.
pub open spec fn annex_b_access_units(s: Seq<u8>) -> Seq<Seq<u8>> {
    let nals = annex_b_nal_units(s);
    if has_aud(nals) {
        access_units_by_aud(nals)
    } else {
        access_units_by_slice(nals)
    }
}

/// The number that big-endian bytes spell.
pub open spec fn big_endian_value(s: Seq<u8>) -> nat
    decreases s.len(),
{
    if s.len() == 0 {
        0
    } else {
        big_endian_value(s.drop_last()) * 256 + s.last() as nat
    }
}

/// The NAL length that an AVCC length prefix spells, reduced to a machine word
/// as a shift-and-or fold into a `usize` leaves it.
pub open spec fn avcc_length_value(prefix: Seq<u8>) -> nat {
    big_endian_value(prefix) % (usize::MAX as nat + 1)
}

/// Rewriting an AVCC payload with `h`-byte length prefixes into Annex-B form:
/// the bytes written, and whether the payload was well formed. Fewer than `h`
/// trailing bytes are ignored; a length running past the end is an error,
/// after which nothing more is written.
pub open spec fn avcc_scan(s: Seq<u8>, h: nat) -> (Seq<u8>, bool)
    decreases s.len() when h > 0
{
    if s.len() < h {
        (seq![], true)
    } else {
        let n = avcc_length_value(s.subrange(0, h as int));
        if n > s.len() - h {
            (seq![], false)
        } else {
            let nal = s.subrange(h as int, (h + n) as int);
            let (tail, ok) = avcc_scan(s.subrange((h + n) as int, s.len() as int), h);
            (annex_b_start_code() + nal + tail, ok)
        }
    }
}

} // verus!
