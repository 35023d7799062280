//! Laws of the H.264 framing model: what splitting gives back of what joining
//! wrote, what the AVCC rewrite gives of length-prefixed NAL units, and what
//! grouping into access units keeps.
use vstd::prelude::*;

use super::model::{
    access_units_by_aud, access_units_by_slice, annex_b_join, annex_b_nal_units,
    annex_b_start_code, aud_scan, avcc_length_value, avcc_scan, big_endian_value, is_aud,
    lemma_next_start_code, nal_units_from, next_start_code, slice_scan, spec_nal_unit_type,
    start_code_at, start_code_length, is_parameter_nal,
};

verus! {

/// A NAL unit that an Annex-B stream carries unambiguously: not empty and
/// free of the three-byte pattern `00 00 01` (the H.264 byte stream format's
/// emulation prevention keeps it out).
pub open spec fn separable_nal(nal: Seq<u8>) -> bool {
    &&& nal.len() > 0
    &&& forall|j: int|
        0 <= j && j + 2 < nal.len() ==> !(#[trigger] nal[j] == 0 && nal[j + 1] == 0 && nal[j + 2]
            == 1)
}

/// Joining in two parts is joining the whole.
pub proof fn lemma_join_append(a: Seq<Seq<u8>>, b: Seq<Seq<u8>>)
    ensures
        annex_b_join(a + b) == annex_b_join(a) + annex_b_join(b),
    decreases b.len(),
{
    if b.len() == 0 {
        assert(a + b =~= a);
        assert(annex_b_join(a) + Seq::<u8>::empty() =~= annex_b_join(a));
    } else {
        lemma_join_append(a, b.drop_last());
        assert((a + b).drop_last() =~= a + b.drop_last());
        assert((a + b).last() == b.last());
        assert(annex_b_join(a + b) =~= annex_b_join(a) + annex_b_join(b));
    }
}

/// A join of one NAL unit is a start code and the unit.
pub proof fn lemma_join_single(nal: Seq<u8>)
    ensures
        annex_b_join(seq![nal]) == annex_b_start_code() + nal,
{
    assert(seq![nal].drop_last() =~= Seq::<Seq<u8>>::empty());
    assert(seq![nal].last() == nal);
    assert(annex_b_join(Seq::<Seq<u8>>::empty()) == Seq::<u8>::empty());
    assert(Seq::<u8>::empty() + annex_b_start_code() =~= annex_b_start_code());
}

/// The stream that joining writes, cut around its `k`-th NAL unit.
proof fn lemma_join_around(nals: Seq<Seq<u8>>, k: int)
    requires
        0 <= k < nals.len(),
    ensures
        annex_b_join(nals) == annex_b_join(nals.take(k)) + annex_b_start_code() + nals[k]
            + annex_b_join(nals.skip(k + 1)),
        annex_b_join(nals.take(k + 1)).len() == annex_b_join(nals.take(k)).len() + 4
            + nals[k].len(),
{
    assert(nals =~= nals.take(k) + seq![nals[k]] + nals.skip(k + 1));
    assert(nals.take(k + 1) =~= nals.take(k) + seq![nals[k]]);
    lemma_join_append(nals.take(k) + seq![nals[k]], nals.skip(k + 1));
    lemma_join_append(nals.take(k), seq![nals[k]]);
    lemma_join_single(nals[k]);
}

/// No start code begins inside a separable NAL unit laid at `start` and
/// followed by zero bytes (the first three bytes of a start code) or by the
/// end of the stream.
proof fn lemma_no_start_code_inside(s: Seq<u8>, nal: Seq<u8>, start: int)
    requires
        separable_nal(nal),
        0 <= start,
        start + nal.len() <= s.len(),
        forall|t: int| 0 <= t < nal.len() ==> s[start + t] == #[trigger] nal[t],
        forall|t: int|
            start + nal.len() <= t < start + nal.len() + 3 && t < s.len() ==> #[trigger] s[t]
                == 0,
    ensures
        forall|j: int| start <= j < start + nal.len() ==> !start_code_at(s, j),
{
    let end = start + nal.len();
    assert forall|j: int| start <= j < end implies !start_code_at(s, j) by {
        let t = j - start;
        assert(s[j] == nal[t]);
        if start_code_at(s, j) {
            if j + 2 < end {
                assert(s[j + 1] == nal[t + 1]);
                assert(s[j + 2] == nal[t + 2]);
                if s[j + 2] == 1 {
                    assert(nal[t] == 0 && nal[t + 1] == 0 && nal[t + 2] == 1);
                } else if j + 3 < end {
                    assert(s[j + 3] == nal[t + 3]);
                    assert(nal[t + 1] == 0 && nal[t + 2] == 0 && nal[t + 3] == 1);
                } else {
                    assert(s[j + 3] == 0);
                }
            } else {
                assert(s[j + 2] == 0);
                assert(s[j + 3] == 0);
            }
        }
    }
}

/// The first start code at or after `from`, when none lies before `at` and
/// one lies at `at`.
proof fn lemma_next_start_code_is(s: Seq<u8>, from: int, at: int)
    requires
        from <= at,
        start_code_at(s, at),
        forall|j: int| from <= j < at ==> !start_code_at(s, j),
    ensures
        next_start_code(s, from) == Some(at),
{
    lemma_next_start_code(s, from);
    match next_start_code(s, from) {
        Some(i) => {
            if i < at {
            } else if i > at {
            }
        },
        None => {},
    }
}

/// There is no start code from `from` on, when none lies before the end.
proof fn lemma_no_next_start_code(s: Seq<u8>, from: int)
    requires
        forall|j: int| from <= j < s.len() ==> !start_code_at(s, j),
    ensures
        next_start_code(s, from) is None,
{
    lemma_next_start_code(s, from);
    match next_start_code(s, from) {
        Some(i) => {
            assert(i < s.len());
        },
        None => {},
    }
}

/// Splitting a joined stream from its `k`-th start code on gives the NAL
/// units from the `k`-th on.
proof fn lemma_split_join_from(nals: Seq<Seq<u8>>, k: int)
    requires
        0 <= k <= nals.len(),
        forall|i: int| 0 <= i < nals.len() ==> separable_nal(#[trigger] nals[i]),
    ensures
        nal_units_from(annex_b_join(nals), annex_b_join(nals.take(k)).len() as int) == nals.skip(
            k,
        ),
    decreases nals.len() - k,
{
    let s = annex_b_join(nals);
    let off = annex_b_join(nals.take(k)).len() as int;
    if k == nals.len() {
        assert(nals.take(k) =~= nals);
        assert(nals.skip(k) =~= Seq::<Seq<u8>>::empty());
    } else {
        let nal = nals[k];
        assert(separable_nal(nal));
        lemma_join_around(nals, k);
        let a = off + 4;
        let b = a + nal.len();
        assert(annex_b_join(nals.take(k + 1)).len() == b);
        assert(s[off] == 0 && s[off + 1] == 0 && s[off + 2] == 0 && s[off + 3] == 1);
        assert(start_code_at(s, off));
        lemma_next_start_code_is(s, off, off);
        assert(start_code_length(s, off) == 4);
        assert forall|t: int| 0 <= t < nal.len() implies s[a + t] == #[trigger] nal[t] by {}
        lemma_split_join_from(nals, k + 1);
        if k + 1 < nals.len() {
            lemma_join_around(nals, k + 1);
            assert(nals.take(k + 1).len() == k + 1);
            assert(s[b] == 0 && s[b + 1] == 0 && s[b + 2] == 0 && s[b + 3] == 1);
            assert forall|t: int| b <= t < b + 3 && t < s.len() implies #[trigger] s[t] == 0 by {}
            lemma_no_start_code_inside(s, nal, a);
            assert(start_code_at(s, b));
            lemma_next_start_code_is(s, a, b);
            assert(s.subrange(a, b) =~= nal);
            assert(nals.skip(k) =~= seq![nal] + nals.skip(k + 1));
        } else {
            assert(nals.skip(k + 1) =~= Seq::<Seq<u8>>::empty());
            assert(s.len() == b);
            lemma_no_start_code_inside(s, nal, a);
            lemma_no_next_start_code(s, a);
            assert(s.subrange(a, s.len() as int) =~= nal);
            assert(nals.skip(k) =~= seq![nal]);
        }
    }
}

/// Splitting what joining wrote gives back the NAL units, when each of them
/// is separable.
pub proof fn lemma_split_join_round_trip(nals: Seq<Seq<u8>>)
    requires
        forall|i: int| 0 <= i < nals.len() ==> separable_nal(#[trigger] nals[i]),
    ensures
        annex_b_nal_units(annex_b_join(nals)) == nals,
{
    assert(nals.take(0) =~= Seq::<Seq<u8>>::empty());
    assert(nals.skip(0) =~= nals);
    lemma_split_join_from(nals, 0);
}

/// The bytes of a list of byte strings, one after another.
pub open spec fn concat(parts: Seq<Seq<u8>>) -> Seq<u8>
    decreases parts.len(),
{
    if parts.len() == 0 {
        seq![]
    } else {
        concat(parts.drop_last()) + parts.last()
    }
}

/// The NAL units that are not access unit delimiters, in order.
pub open spec fn video_nals(nals: Seq<Seq<u8>>) -> Seq<Seq<u8>>
    decreases nals.len(),
{
    if nals.len() == 0 {
        seq![]
    } else if is_aud(nals.last()) {
        video_nals(nals.drop_last())
    } else {
        video_nals(nals.drop_last()).push(nals.last())
    }
}

proof fn lemma_aud_scan_keeps_video(nals: Seq<Seq<u8>>)
    ensures
        concat(aud_scan(nals).0) + annex_b_join(aud_scan(nals).1) == annex_b_join(
            video_nals(nals),
        ),
    decreases nals.len(),
{
    if nals.len() == 0 {
        assert(Seq::<u8>::empty() + Seq::<u8>::empty() =~= Seq::<u8>::empty());
    } else {
        lemma_aud_scan_keeps_video(nals.drop_last());
        let (units, current) = aud_scan(nals.drop_last());
        let nal = nals.last();
        if is_aud(nal) {
            if current.len() > 0 {
                assert(units.push(annex_b_join(current)).drop_last() =~= units);
                assert(concat(units.push(annex_b_join(current))) + annex_b_join(
                    Seq::<Seq<u8>>::empty(),
                ) =~= concat(units) + annex_b_join(current));
            } else {
                assert(annex_b_join(current) =~= Seq::<u8>::empty());
            }
        } else {
            assert(current.push(nal).drop_last() =~= current);
            assert(video_nals(nals).drop_last() =~= video_nals(nals.drop_last()));
            assert(concat(units) + annex_b_join(current.push(nal)) =~= concat(units)
                + annex_b_join(current) + annex_b_start_code() + nal);
        }
    }
}

/// Grouping at delimiters loses, repeats and reorders nothing: the access
/// units, one after another, are exactly the NAL units other than the
/// delimiters, in Annex-B form.
pub proof fn lemma_aud_grouping_keeps_video(nals: Seq<Seq<u8>>)
    ensures
        concat(access_units_by_aud(nals)) == annex_b_join(video_nals(nals)),
{
    lemma_aud_scan_keeps_video(nals);
    let (units, current) = aud_scan(nals);
    if current.len() > 0 {
        assert(units.push(annex_b_join(current)).drop_last() =~= units);
    } else {
        assert(annex_b_join(current) =~= Seq::<u8>::empty());
        assert(concat(units) + Seq::<u8>::empty() =~= concat(units));
    }
}

/// A stream joined from separable NAL units that holds a delimiter parses to
/// access units that are, one after another, exactly its other NAL units.
pub proof fn lemma_delimited_stream_keeps_video(nals: Seq<Seq<u8>>)
    requires
        forall|i: int| 0 <= i < nals.len() ==> separable_nal(#[trigger] nals[i]),
        exists|i: int| 0 <= i < nals.len() && #[trigger] is_aud(nals[i]),
    ensures
        concat(super::model::annex_b_access_units(annex_b_join(nals))) == annex_b_join(
            video_nals(nals),
        ),
{
    lemma_split_join_round_trip(nals);
    lemma_aud_grouping_keeps_video(nals);
}

/// A slice NAL unit: IDR (5) or non-IDR (1).
pub open spec fn is_slice_nal(nal: Seq<u8>) -> bool {
    spec_nal_unit_type(nal) == Some(5u8) || spec_nal_unit_type(nal) == Some(1u8)
}

/// The number of slice NAL units.
pub open spec fn slice_count(nals: Seq<Seq<u8>>) -> nat
    decreases nals.len(),
{
    if nals.len() == 0 {
        0
    } else {
        slice_count(nals.drop_last()) + if is_slice_nal(nals.last()) {
            1nat
        } else {
            0nat
        }
    }
}

/// Without delimiters, each slice NAL unit makes exactly one access unit.
pub proof fn lemma_one_access_unit_per_slice(nals: Seq<Seq<u8>>)
    ensures
        access_units_by_slice(nals).len() == slice_count(nals),
    decreases nals.len(),
{
    if nals.len() > 0 {
        lemma_one_access_unit_per_slice(nals.drop_last());
    }
}

/// `256` to the power `n`.
pub open spec fn pow256(n: nat) -> nat
    decreases n,
{
    if n == 0 {
        1
    } else {
        256 * pow256((n - 1) as nat)
    }
}

/// `value` in `width` big-endian bytes, cut to that width.
pub open spec fn big_endian_bytes(value: nat, width: nat) -> Seq<u8>
    decreases width,
{
    if width == 0 {
        seq![]
    } else {
        big_endian_bytes(value / 256, (width - 1) as nat).push((value % 256) as u8)
    }
}

/// NAL units in AVCC layout: each behind its length in `width` big-endian
/// bytes.
pub open spec fn avcc_join(nals: Seq<Seq<u8>>, width: nat) -> Seq<u8>
    decreases nals.len(),
{
    if nals.len() == 0 {
        seq![]
    } else {
        avcc_join(nals.drop_last(), width) + big_endian_bytes(nals.last().len(), width)
            + nals.last()
    }
}

proof fn lemma_big_endian_bytes(value: nat, width: nat)
    ensures
        big_endian_bytes(value, width).len() == width,
        big_endian_value(big_endian_bytes(value, width)) == value % pow256(width),
        pow256(width) > 0,
    decreases width,
{
    if width > 0 {
        let w1 = (width - 1) as nat;
        lemma_big_endian_bytes(value / 256, w1);
        let bytes = big_endian_bytes(value, width);
        assert(bytes.drop_last() =~= big_endian_bytes(value / 256, w1));
        vstd::arithmetic::div_mod::lemma_breakdown(value as int, 256, pow256(w1) as int);
        vstd::arithmetic::mul::lemma_mul_is_commutative(256, pow256(w1) as int);
        vstd::arithmetic::mul::lemma_mul_strictly_positive(256, pow256(w1) as int);
    }
}

proof fn lemma_avcc_join_append(a: Seq<Seq<u8>>, b: Seq<Seq<u8>>, width: nat)
    ensures
        avcc_join(a + b, width) == avcc_join(a, width) + avcc_join(b, width),
    decreases b.len(),
{
    if b.len() == 0 {
        assert(a + b =~= a);
        assert(avcc_join(a, width) + Seq::<u8>::empty() =~= avcc_join(a, width));
    } else {
        lemma_avcc_join_append(a, b.drop_last(), width);
        assert((a + b).drop_last() =~= a + b.drop_last());
        assert(avcc_join(a + b, width) =~= avcc_join(a, width) + avcc_join(b, width));
    }
}

/// Rewriting NAL units in AVCC layout gives them in Annex-B layout, when each
/// length fits its prefix and a machine word.
pub proof fn lemma_avcc_round_trip(nals: Seq<Seq<u8>>, width: nat)
    requires
        width >= 1,
        forall|i: int|
            0 <= i < nals.len() ==> #[trigger] nals[i].len() < pow256(width) && nals[i].len()
                <= usize::MAX,
    ensures
        avcc_scan(avcc_join(nals, width), width) == (annex_b_join(nals), true),
    decreases nals.len(),
{
    if nals.len() == 0 {
    } else {
        let nal = nals[0];
        let rest = nals.drop_first();
        assert(nals =~= seq![nal] + rest);
        lemma_avcc_join_append(seq![nal], rest, width);
        assert(seq![nal].drop_last() =~= Seq::<Seq<u8>>::empty());
        let prefix = big_endian_bytes(nal.len(), width);
        lemma_big_endian_bytes(nal.len(), width);
        assert(seq![nal].last() == nal);
        assert(avcc_join(Seq::<Seq<u8>>::empty(), width) == Seq::<u8>::empty());
        assert(avcc_join(seq![nal], width) =~= prefix + nal);
        let s = avcc_join(nals, width);
        assert(s =~= prefix + nal + avcc_join(rest, width));
        assert(s.subrange(0, width as int) =~= prefix);
        vstd::arithmetic::div_mod::lemma_small_mod(nal.len(), pow256(width));
        vstd::arithmetic::div_mod::lemma_small_mod(nal.len(), usize::MAX as nat + 1);
        assert(avcc_length_value(prefix) == nal.len());
        assert(s.subrange(width as int, (width + nal.len()) as int) =~= nal);
        assert(s.subrange((width + nal.len()) as int, s.len() as int) =~= avcc_join(rest, width));
        assert forall|i: int| 0 <= i < rest.len() implies #[trigger] rest[i].len() < pow256(width)
            && rest[i].len() <= usize::MAX by {
            assert(rest[i] == nals[i + 1]);
        }
        lemma_avcc_round_trip(rest, width);
        lemma_join_append(seq![nal], rest);
        lemma_join_single(nal);
        assert(annex_b_join(nals) =~= annex_b_start_code() + nal + annex_b_join(rest));
    }
}

/// The keyframe access unit built from an encoder's output splits back into
/// its parameter sets followed by its NAL units, when all of them are
/// separable and every length fits its prefix and a machine word.
pub proof fn lemma_keyframe_unit_splits_back(
    parameter_sets: Seq<Seq<u8>>,
    nals: Seq<Seq<u8>>,
    width: nat,
)
    requires
        width >= 1,
        forall|i: int| 0 <= i < parameter_sets.len() ==> separable_nal(#[trigger] parameter_sets[i]),
        forall|i: int| 0 <= i < nals.len() ==> separable_nal(#[trigger] nals[i]),
        forall|i: int|
            0 <= i < nals.len() ==> #[trigger] nals[i].len() < pow256(width) && nals[i].len()
                <= usize::MAX,
    ensures
        avcc_scan(avcc_join(nals, width), width).1,
        annex_b_nal_units(annex_b_join(parameter_sets) + avcc_scan(avcc_join(nals, width), width).0)
            == parameter_sets + nals,
{
    lemma_avcc_round_trip(nals, width);
    lemma_join_append(parameter_sets, nals);
    let all = parameter_sets + nals;
    assert forall|i: int| 0 <= i < all.len() implies separable_nal(#[trigger] all[i]) by {
        if i < parameter_sets.len() {
            assert(all[i] == parameter_sets[i]);
        } else {
            assert(all[i] == nals[i - parameter_sets.len()]);
        }
    }
    lemma_split_join_round_trip(all);
}

/// A stream joined from separable NAL units with no delimiter parses to one
/// access unit per slice NAL unit.
pub proof fn lemma_undelimited_stream_one_unit_per_slice(nals: Seq<Seq<u8>>)
    requires
        forall|i: int| 0 <= i < nals.len() ==> separable_nal(#[trigger] nals[i]),
        forall|i: int| 0 <= i < nals.len() ==> !is_aud(#[trigger] nals[i]),
    ensures
        super::model::annex_b_access_units(annex_b_join(nals)).len() == slice_count(nals),
{
    lemma_split_join_round_trip(nals);
    lemma_one_access_unit_per_slice(nals);
}

/// Scanning on after a point where no access unit is open adds what
/// scanning the rest alone gives.
proof fn lemma_aud_scan_append(x: Seq<Seq<u8>>, y: Seq<Seq<u8>>)
    requires
        aud_scan(x).1.len() == 0,
    ensures
        aud_scan(x + y) == (aud_scan(x).0 + aud_scan(y).0, aud_scan(y).1),
    decreases y.len(),
{
    if y.len() == 0 {
        assert(x + y =~= x);
        assert(aud_scan(x).0 + Seq::<Seq<u8>>::empty() =~= aud_scan(x).0);
        assert(aud_scan(x).1 =~= Seq::<Seq<u8>>::empty());
    } else {
        lemma_aud_scan_append(x, y.drop_last());
        assert((x + y).drop_last() =~= x + y.drop_last());
        assert((x + y).last() == y.last());
        let (uy, cy) = aud_scan(y.drop_last());
        let ux = aud_scan(x).0;
        if is_aud(y.last()) {
            if cy.len() > 0 {
                assert((ux + uy).push(annex_b_join(cy)) =~= ux + uy.push(annex_b_join(cy)));
            }
        }
    }
}

/// Scanning NAL units with no delimiter among them opens one access unit
/// holding all of them.
proof fn lemma_aud_scan_run(y: Seq<Seq<u8>>)
    requires
        forall|i: int| 0 <= i < y.len() ==> !is_aud(#[trigger] y[i]),
    ensures
        aud_scan(y) == (Seq::<Seq<u8>>::empty(), y),
    decreases y.len(),
{
    if y.len() == 0 {
        assert(y =~= Seq::<Seq<u8>>::empty());
    } else {
        assert forall|i: int| 0 <= i < y.drop_last().len() implies !is_aud(
            #[trigger] y.drop_last()[i],
        ) by {
            assert(y.drop_last()[i] == y[i]);
        }
        lemma_aud_scan_run(y.drop_last());
        assert(!is_aud(y[y.len() - 1]));
        assert(y.drop_last().push(y.last()) =~= y);
    }
}

/// With delimiters: a stream without NAL units has no access unit.
pub proof fn lemma_aud_no_nals_no_units()
    ensures
        access_units_by_aud(Seq::<Seq<u8>>::empty()) == Seq::<Seq<u8>>::empty(),
{
}

/// With delimiters: a non-empty run of NAL units with no delimiter in it is a
/// single access unit holding all of them, in order.
pub proof fn lemma_aud_run_is_one_unit(nals: Seq<Seq<u8>>)
    requires
        nals.len() > 0,
        forall|i: int| 0 <= i < nals.len() ==> !is_aud(#[trigger] nals[i]),
    ensures
        access_units_by_aud(nals) == seq![annex_b_join(nals)],
{
    lemma_aud_scan_run(nals);
    assert(Seq::<Seq<u8>>::empty().push(annex_b_join(nals)) =~= seq![annex_b_join(nals)]);
}

/// With delimiters: a delimiter cuts the stream, so the access units of
/// `before`, a delimiter and `after` are those of `before` followed by those
/// of `after`, and no access unit spans the delimiter.
pub proof fn lemma_aud_cuts(before: Seq<Seq<u8>>, delimiter: Seq<u8>, after: Seq<Seq<u8>>)
    requires
        is_aud(delimiter),
    ensures
        access_units_by_aud(before + seq![delimiter] + after) == access_units_by_aud(before)
            + access_units_by_aud(after),
{
    let x = before + seq![delimiter];
    assert(x.drop_last() =~= before);
    assert(x.last() == delimiter);
    assert(aud_scan(x).0 == access_units_by_aud(before));
    lemma_aud_scan_append(x, after);
    let (ua, ca) = aud_scan(after);
    if ca.len() > 0 {
        assert((access_units_by_aud(before) + ua).push(annex_b_join(ca)) =~= access_units_by_aud(
            before,
        ) + ua.push(annex_b_join(ca)));
    }
}

/// The parameter NAL units (SPS, PPS, SEI) among `nals`, in order.
pub open spec fn parameter_nals(nals: Seq<Seq<u8>>) -> Seq<Seq<u8>> {
    nals.filter(|n: Seq<u8>| is_parameter_nal(n))
}

/// The slice NAL units (IDR or non-IDR) among `nals`, in order.
pub open spec fn slice_nals(nals: Seq<Seq<u8>>) -> Seq<Seq<u8>> {
    nals.filter(|n: Seq<u8>| is_slice_nal(n))
}

proof fn lemma_filters_step(nals: Seq<Seq<u8>>)
    requires
        nals.len() > 0,
    ensures
        parameter_nals(nals) == if is_parameter_nal(nals.last()) {
            parameter_nals(nals.drop_last()).push(nals.last())
        } else {
            parameter_nals(nals.drop_last())
        },
        slice_nals(nals) == if is_slice_nal(nals.last()) {
            slice_nals(nals.drop_last()).push(nals.last())
        } else {
            slice_nals(nals.drop_last())
        },
{
    reveal(Seq::filter);
}

/// Without delimiters: there is one access unit per slice, in slice order.
/// The unit of an IDR slice is every parameter NAL unit before it, in order,
/// then the slice, whatever lies between them; the unit of a non-IDR slice is
/// the slice alone.
pub proof fn lemma_slice_units(nals: Seq<Seq<u8>>)
    ensures
        access_units_by_slice(nals).len() == slice_nals(nals).len(),
        forall|k: int|
            0 <= k < nals.len() && spec_nal_unit_type(#[trigger] nals[k]) == Some(5u8)
                ==> access_units_by_slice(nals)[slice_nals(nals.take(k)).len() as int]
                == annex_b_join(parameter_nals(nals.take(k)).push(nals[k])),
        forall|k: int|
            0 <= k < nals.len() && spec_nal_unit_type(#[trigger] nals[k]) == Some(1u8)
                ==> access_units_by_slice(nals)[slice_nals(nals.take(k)).len() as int]
                == annex_b_join(seq![nals[k]]),
        slice_scan(nals).1 == parameter_nals(nals),
    decreases nals.len(),
{
    if nals.len() == 0 {
        reveal(Seq::filter);
    } else {
        let p = nals.drop_last();
        let n = nals.last();
        let m = p.len() as int;
        lemma_slice_units(p);
        lemma_filters_step(nals);
        assert(nals.take(m) =~= p);
        assert forall|k: int| 0 <= k < m implies #[trigger] nals.take(k) == p.take(k) && nals[k]
            == p[k] by {
            assert(nals.take(k) =~= p.take(k));
        }
        assert forall|k: int|
            0 <= k < m && is_slice_nal(#[trigger] p[k]) implies slice_nals(p.take(k)).len()
            < slice_nals(p).len() by {
            lemma_slice_prefix_count(p, k);
        }
        let units = slice_scan(p).0;
        let units2 = slice_scan(nals).0;
        assert forall|i: int| 0 <= i < units.len() implies #[trigger] units2[i] == units[i] by {}
        assert forall|k: int|
            0 <= k < nals.len() && spec_nal_unit_type(#[trigger] nals[k]) == Some(5u8)
            implies access_units_by_slice(nals)[slice_nals(nals.take(k)).len() as int]
            == annex_b_join(parameter_nals(nals.take(k)).push(nals[k])) by {
            if k < m {
                assert(nals[k] == p[k]);
                assert(is_slice_nal(p[k]));
            }
        }
        assert forall|k: int|
            0 <= k < nals.len() && spec_nal_unit_type(#[trigger] nals[k]) == Some(1u8)
            implies access_units_by_slice(nals)[slice_nals(nals.take(k)).len() as int]
            == annex_b_join(seq![nals[k]]) by {
            if k < m {
                assert(nals[k] == p[k]);
                assert(is_slice_nal(p[k]));
            }
        }
    }
}

/// A slice at `k` comes after every slice before it: there are fewer slices
/// before it than in the whole.
proof fn lemma_slice_prefix_count(nals: Seq<Seq<u8>>, k: int)
    requires
        0 <= k < nals.len(),
        is_slice_nal(nals[k]),
    ensures
        slice_nals(nals.take(k)).len() < slice_nals(nals).len(),
    decreases nals.len(),
{
    let p = nals.drop_last();
    lemma_filters_step(nals);
    if k == nals.len() - 1 {
        assert(nals.take(k) =~= p);
    } else {
        assert(p[k] == nals[k]);
        assert(p.take(k) =~= nals.take(k));
        lemma_slice_prefix_count(p, k);
    }
}

/// The NAL unit type is the first byte modulo 32 (its low five bits), and an
/// empty unit has none.
pub proof fn lemma_nal_unit_type_is_low_bits(nal: Seq<u8>)
    ensures
        nal.len() == 0 ==> spec_nal_unit_type(nal) is None,
        nal.len() > 0 ==> spec_nal_unit_type(nal) == Some((nal[0] % 32) as u8),
{
    if nal.len() > 0 {
        let b = nal[0];
        assert(b & 0x1f == b % 32) by (bit_vector);
    }
}

/// After whole AVCC units, fewer trailing bytes than a length prefix are
/// ignored: the rewrite is the Annex-B join of the units, and succeeds.
pub proof fn lemma_avcc_short_tail_ignored(nals: Seq<Seq<u8>>, width: nat, tail: Seq<u8>)
    requires
        width >= 1,
        tail.len() < width,
        forall|i: int|
            0 <= i < nals.len() ==> #[trigger] nals[i].len() < pow256(width) && nals[i].len()
                <= usize::MAX,
    ensures
        avcc_scan(avcc_join(nals, width) + tail, width) == (annex_b_join(nals), true),
    decreases nals.len(),
{
    if nals.len() == 0 {
        assert(avcc_join(nals, width) == Seq::<u8>::empty());
        assert(avcc_join(nals, width) + tail =~= tail);
        assert(annex_b_join(nals) == Seq::<u8>::empty());
    } else {
        lemma_join_front(nals);
        lemma_avcc_prefix_step(nals, width, tail);
        let rest = nals.drop_first();
        assert forall|i: int| 0 <= i < rest.len() implies #[trigger] rest[i].len() < pow256(width)
            && rest[i].len() <= usize::MAX by {
            assert(rest[i] == nals[i + 1]);
        }
        lemma_avcc_short_tail_ignored(rest, width, tail);
    }
}

/// After whole AVCC units, a length prefix that runs past the end of the
/// payload makes the rewrite fail, after writing the units before it.
pub proof fn lemma_avcc_overrun_refused(
    nals: Seq<Seq<u8>>,
    width: nat,
    prefix: Seq<u8>,
    body: Seq<u8>,
)
    requires
        width >= 1,
        prefix.len() == width,
        avcc_length_value(prefix) > body.len(),
        forall|i: int|
            0 <= i < nals.len() ==> #[trigger] nals[i].len() < pow256(width) && nals[i].len()
                <= usize::MAX,
    ensures
        avcc_scan(avcc_join(nals, width) + prefix + body, width) == (annex_b_join(nals), false),
    decreases nals.len(),
{
    if nals.len() == 0 {
        assert(avcc_join(nals, width) == Seq::<u8>::empty());
        assert(annex_b_join(nals) == Seq::<u8>::empty());
        let s = avcc_join(nals, width) + prefix + body;
        assert(s =~= prefix + body);
        assert(s.subrange(0, width as int) =~= prefix);
    } else {
        lemma_join_front(nals);
        lemma_avcc_prefix_step(nals, width, prefix + body);
        assert(avcc_join(nals, width) + prefix + body =~= avcc_join(nals, width) + (prefix + body));
        assert(avcc_join(nals.drop_first(), width) + (prefix + body) =~= avcc_join(
            nals.drop_first(),
            width,
        ) + prefix + body);
        let rest = nals.drop_first();
        assert forall|i: int| 0 <= i < rest.len() implies #[trigger] rest[i].len() < pow256(width)
            && rest[i].len() <= usize::MAX by {
            assert(rest[i] == nals[i + 1]);
        }
        lemma_avcc_overrun_refused(rest, width, prefix, body);
    }
}

/// A join is a start code, the first unit, then the join of the rest.
proof fn lemma_join_front(nals: Seq<Seq<u8>>)
    requires
        nals.len() > 0,
    ensures
        annex_b_join(nals) == annex_b_start_code() + nals[0] + annex_b_join(nals.drop_first()),
{
    assert(nals =~= seq![nals[0]] + nals.drop_first());
    lemma_join_append(seq![nals[0]], nals.drop_first());
    lemma_join_single(nals[0]);
}

/// One step of the AVCC rewrite over whole units followed by any bytes.
proof fn lemma_avcc_prefix_step(nals: Seq<Seq<u8>>, width: nat, after: Seq<u8>)
    requires
        width >= 1,
        nals.len() > 0,
        nals[0].len() < pow256(width),
        nals[0].len() <= usize::MAX,
    ensures
        avcc_scan(avcc_join(nals, width) + after, width) == ({
            let (tail, ok) = avcc_scan(avcc_join(nals.drop_first(), width) + after, width);
            (annex_b_start_code() + nals[0] + tail, ok)
        }),
{
    let nal = nals[0];
    let rest = nals.drop_first();
    assert(nals =~= seq![nal] + rest);
    lemma_avcc_join_append(seq![nal], rest, width);
    assert(seq![nal].drop_last() =~= Seq::<Seq<u8>>::empty());
    assert(seq![nal].last() == nal);
    assert(avcc_join(Seq::<Seq<u8>>::empty(), width) == Seq::<u8>::empty());
    let prefix = big_endian_bytes(nal.len(), width);
    lemma_big_endian_bytes(nal.len(), width);
    assert(avcc_join(seq![nal], width) =~= prefix + nal);
    let s = avcc_join(nals, width) + after;
    assert(s =~= prefix + nal + (avcc_join(rest, width) + after));
    assert(s.subrange(0, width as int) =~= prefix);
    vstd::arithmetic::div_mod::lemma_small_mod(nal.len(), pow256(width));
    vstd::arithmetic::div_mod::lemma_small_mod(nal.len(), usize::MAX as nat + 1);
    assert(avcc_length_value(prefix) == nal.len());
    assert(s.subrange(width as int, (width + nal.len()) as int) =~= nal);
    assert(s.subrange((width + nal.len()) as int, s.len() as int) =~= avcc_join(rest, width)
        + after);
}

/// The three-byte start code `00 00 01`, which other encoders write.
pub open spec fn short_start_code() -> Seq<u8> {
    seq![0u8, 0u8, 1u8]
}

/// NAL units each behind a three-byte start code.
pub open spec fn annex_b_join_short(nals: Seq<Seq<u8>>) -> Seq<u8>
    decreases nals.len(),
{
    if nals.len() == 0 {
        seq![]
    } else {
        annex_b_join_short(nals.drop_last()) + short_start_code() + nals.last()
    }
}

proof fn lemma_join_short_append(a: Seq<Seq<u8>>, b: Seq<Seq<u8>>)
    ensures
        annex_b_join_short(a + b) == annex_b_join_short(a) + annex_b_join_short(b),
    decreases b.len(),
{
    if b.len() == 0 {
        assert(a + b =~= a);
        assert(annex_b_join_short(a) + Seq::<u8>::empty() =~= annex_b_join_short(a));
    } else {
        lemma_join_short_append(a, b.drop_last());
        assert((a + b).drop_last() =~= a + b.drop_last());
        assert((a + b).last() == b.last());
        assert(annex_b_join_short(a + b) =~= annex_b_join_short(a) + annex_b_join_short(b));
    }
}

proof fn lemma_join_short_around(nals: Seq<Seq<u8>>, k: int)
    requires
        0 <= k < nals.len(),
    ensures
        annex_b_join_short(nals) == annex_b_join_short(nals.take(k)) + short_start_code()
            + nals[k] + annex_b_join_short(nals.skip(k + 1)),
        annex_b_join_short(nals.take(k + 1)).len() == annex_b_join_short(nals.take(k)).len() + 3
            + nals[k].len(),
{
    assert(nals =~= nals.take(k) + seq![nals[k]] + nals.skip(k + 1));
    assert(nals.take(k + 1) =~= nals.take(k) + seq![nals[k]]);
    lemma_join_short_append(nals.take(k) + seq![nals[k]], nals.skip(k + 1));
    lemma_join_short_append(nals.take(k), seq![nals[k]]);
    let one = seq![nals[k]];
    assert(one.drop_last() =~= Seq::<Seq<u8>>::empty());
    assert(one.last() == nals[k]);
    assert(annex_b_join_short(Seq::<Seq<u8>>::empty()) == Seq::<u8>::empty());
    assert(annex_b_join_short(one) =~= short_start_code() + nals[k]);
}

/// No start code begins inside a separable NAL unit that does not end in a
/// zero byte, laid at `start` and followed by a zero byte or the end.
proof fn lemma_no_start_code_inside_short(s: Seq<u8>, nal: Seq<u8>, start: int)
    requires
        separable_nal(nal),
        nal.last() != 0,
        0 <= start,
        start + nal.len() <= s.len(),
        forall|t: int| 0 <= t < nal.len() ==> s[start + t] == #[trigger] nal[t],
        start + nal.len() < s.len() ==> s[start + nal.len()] == 0,
    ensures
        forall|j: int| start <= j < start + nal.len() ==> !start_code_at(s, j),
{
    let end = start + nal.len();
    assert forall|j: int| start <= j < end implies !start_code_at(s, j) by {
        let t = j - start;
        assert(s[j] == nal[t]);
        if start_code_at(s, j) {
            if j + 2 < end {
                assert(s[j + 1] == nal[t + 1]);
                assert(s[j + 2] == nal[t + 2]);
                if s[j + 2] == 1 {
                    assert(nal[t] == 0 && nal[t + 1] == 0 && nal[t + 2] == 1);
                } else if j + 3 < end {
                    assert(s[j + 3] == nal[t + 3]);
                    assert(nal[t + 1] == 0 && nal[t + 2] == 0 && nal[t + 3] == 1);
                } else {
                    assert(s[j + 3] == 0);
                }
            } else if j + 2 == end {
                assert(s[j + 1] == nal[t + 1]);
                assert(nal[t + 1] == nal.last());
            } else {
                assert(nal[t] == nal.last());
            }
        }
    }
}

proof fn lemma_split_join_short_from(nals: Seq<Seq<u8>>, k: int)
    requires
        0 <= k <= nals.len(),
        forall|i: int|
            0 <= i < nals.len() ==> separable_nal(#[trigger] nals[i]) && nals[i].last() != 0,
    ensures
        nal_units_from(annex_b_join_short(nals), annex_b_join_short(nals.take(k)).len() as int)
            == nals.skip(k),
    decreases nals.len() - k,
{
    let s = annex_b_join_short(nals);
    let off = annex_b_join_short(nals.take(k)).len() as int;
    if k == nals.len() {
        assert(nals.take(k) =~= nals);
        assert(nals.skip(k) =~= Seq::<Seq<u8>>::empty());
    } else {
        let nal = nals[k];
        assert(separable_nal(nal) && nal.last() != 0);
        lemma_join_short_around(nals, k);
        let a = off + 3;
        let b = a + nal.len();
        assert(annex_b_join_short(nals.take(k + 1)).len() == b);
        assert(s[off] == 0 && s[off + 1] == 0 && s[off + 2] == 1);
        assert(s[off + 3] == nal[0]);
        assert(start_code_at(s, off));
        lemma_next_start_code_is(s, off, off);
        assert(start_code_length(s, off) == 3);
        assert forall|t: int| 0 <= t < nal.len() implies s[a + t] == #[trigger] nal[t] by {}
        lemma_split_join_short_from(nals, k + 1);
        if k + 1 < nals.len() {
            lemma_join_short_around(nals, k + 1);
            assert(nals.take(k + 1).len() == k + 1);
            let next = nals[k + 1];
            assert(separable_nal(next));
            assert(s[b] == 0 && s[b + 1] == 0 && s[b + 2] == 1 && s[b + 3] == next[0]);
            lemma_no_start_code_inside_short(s, nal, a);
            assert(start_code_at(s, b));
            lemma_next_start_code_is(s, a, b);
            assert(s.subrange(a, b) =~= nal);
            assert(nals.skip(k) =~= seq![nal] + nals.skip(k + 1));
        } else {
            assert(nals.skip(k + 1) =~= Seq::<Seq<u8>>::empty());
            assert(s.len() == b);
            lemma_no_start_code_inside_short(s, nal, a);
            lemma_no_next_start_code(s, a);
            assert(s.subrange(a, s.len() as int) =~= nal);
            assert(nals.skip(k) =~= seq![nal]);
        }
    }
}

/// Three-byte start codes are start codes too: a stream that lays separable
/// NAL units not ending in a zero byte behind `00 00 01` splits back into
/// them. (A unit ending in zero would lend that byte to a four-byte code.)
pub proof fn lemma_split_join_short_round_trip(nals: Seq<Seq<u8>>)
    requires
        forall|i: int|
            0 <= i < nals.len() ==> separable_nal(#[trigger] nals[i]) && nals[i].last() != 0,
    ensures
        annex_b_nal_units(annex_b_join_short(nals)) == nals,
{
    assert(nals.take(0) =~= Seq::<Seq<u8>>::empty());
    assert(nals.skip(0) =~= nals);
    lemma_split_join_short_from(nals, 0);
}

} // verus!
