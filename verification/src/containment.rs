//! Why a code stream lies inside every interval that its encoder passed
//! through: renormalisation rescales an interval without moving it, and
//! subdivision only ever shrinks it.
use vstd::prelude::*;
use crate::bits::{lemma_shift_left, lemma_top_byte, lemma_xor_top_byte, TOP16, TOP8};
use crate::bytes::{
    be_value,
    lemma_be_value_bound,
    lemma_be_value_concat,
    lemma_be_value_skip_first,
    lemma_pow256_adds,
    lemma_pow256_positive,
    lemma_pow256_values,
    pow256,
};
use crate::interval::Interval;

verus! {

/// The weight of one unit of the register in a stream whose first eight
/// bytes are aligned with it.
pub open spec fn scale(stream: Seq<u8>) -> int {
    pow256((stream.len() - 8) as nat) as int
}

/// The stream, aligned with the register, is not below the lower bound.
pub open spec fn above(interval: Interval, stream: Seq<u8>) -> bool {
    stream.len() >= 8 && interval.lower_bound * scale(stream) <= be_value(stream)
}

/// The stream, aligned with the register, lies in the interval.
pub open spec fn within(interval: Interval, stream: Seq<u8>) -> bool {
    above(interval, stream) && be_value(stream) < (interval.lower_bound + interval.range) * scale(
        stream,
    )
}

/// The value of a stream behind an emitted byte, and the scales before and
/// after the shift.
proof fn lemma_shift_parts(interval: Interval, stream: Seq<u8>)
    requires
        stream.len() >= 8,
    ensures
        be_value(seq![interval.top_byte()] + stream) == (interval.lower_bound as int
            / 0x0100_0000_0000_0000) * (0x1_0000_0000_0000_0000 * scale(stream)) + be_value(
            stream,
        ),
        scale(seq![interval.top_byte()] + stream) == 256 * scale(stream),
        interval.lower_bound * (256 * scale(stream)) == (interval.lower_bound as int
            / 0x0100_0000_0000_0000) * (0x1_0000_0000_0000_0000 * scale(stream))
            + interval.shifted().lower_bound * scale(stream),
        scale(stream) > 0,
{
    let top = interval.top_byte();
    let full = seq![top] + stream;
    let l = interval.lower_bound as int;
    let p = scale(stream);
    lemma_top_byte(interval.lower_bound);
    lemma_shift_left(interval.lower_bound);
    assert(full.skip(1) =~= stream);
    lemma_be_value_skip_first(full);
    lemma_pow256_adds(8, (stream.len() - 8) as nat);
    lemma_pow256_values();
    lemma_pow256_positive((stream.len() - 8) as nat);
    let t = l / 0x0100_0000_0000_0000;
    let low = l % 0x0100_0000_0000_0000;
    assert(l * (256 * p) == t * (0x1_0000_0000_0000_0000 * p) + (low * 256) * p)
        by (nonlinear_arith)
        requires
            l == t * 0x0100_0000_0000_0000 + low,
    ;
    assert(top as int * (0x1_0000_0000_0000_0000 * p) == top * pow256(stream.len()));
}

/// A stream that is not below the shifted lower bound is, behind the emitted
/// byte, not below the lower bound before the shift.
pub proof fn lemma_shift_above(interval: Interval, stream: Seq<u8>)
    requires
        above(interval.shifted(), stream),
    ensures
        above(interval, seq![interval.top_byte()] + stream),
{
    lemma_shift_parts(interval, stream);
}

/// A stream in the shifted interval lies, behind the emitted byte, in the
/// interval before the shift.
pub proof fn lemma_shift_within(interval: Interval, stream: Seq<u8>)
    requires
        within(interval.shifted(), stream),
        interval.shifted().range == interval.range * 256,
    ensures
        within(interval, seq![interval.top_byte()] + stream),
{
    lemma_shift_parts(interval, stream);
    let p = scale(stream);
    let l = interval.lower_bound as int;
    let r = interval.range as int;
    let shifted_l = interval.shifted().lower_bound as int;
    let high = (l / 0x0100_0000_0000_0000) * (0x1_0000_0000_0000_0000 * p);
    assert((l + r) * (256 * p) == high + (shifted_l + r * 256) * p) by (nonlinear_arith)
        requires
            l * (256 * p) == high + shifted_l * p,
    ;
}

/// What the lossless pass emits leads a stream in its last interval back
/// into its first.
pub proof fn lemma_no_carry_within(interval: Interval, stream: Seq<u8>)
    requires
        interval.no_carry_pass().output is Ok,
        within(interval.no_carry_pass().interval, stream),
    ensures
        within(interval, interval.no_carry_pass().output.unwrap() + stream),
    decreases interval.no_carry_measure(),
{
    if interval.wf() && interval.top_byte_fixed(interval.upper_edge().unwrap()) {
        interval.lemma_no_carry_shift();
        let rest = interval.shifted().no_carry_pass().output.unwrap();
        lemma_no_carry_within(interval.shifted(), stream);
        if interval.range == TOP8 {
            assert((interval.shifted().lower_bound + 0) * scale(rest + stream)
                == interval.shifted().lower_bound * scale(rest + stream));
        }
        lemma_shift_within(interval, rest + stream);
        assert(seq![interval.top_byte()] + (rest + stream) =~= (seq![interval.top_byte()] + rest)
            + stream);
    } else {
        assert(Seq::<u8>::empty() + stream =~= stream);
    }
}

/// What the lossy pass emits leads a stream at or above its last lower bound
/// back to one at or above its first.
pub proof fn lemma_range_reduction_above(interval: Interval, stream: Seq<u8>)
    requires
        above(interval.range_reduction_pass().0, stream),
    ensures
        above(interval, interval.range_reduction_pass().1 + stream),
        interval.range < TOP16 ==> interval.range_reduction_pass().1.len() > 0
            && interval.range_reduction_pass().1[0] == interval.top_byte(),
    decreases interval.range_reduction_measure(),
{
    if interval.range < TOP16 {
        interval.lemma_range_reduction_shift();
        let next = interval.reduced().shifted();
        let rest = next.range_reduction_pass().1;
        lemma_range_reduction_above(next, stream);
        lemma_shift_above(interval.reduced(), rest + stream);
        assert(seq![interval.top_byte()] + (rest + stream) =~= (seq![interval.top_byte()] + rest)
            + stream);
    } else {
        assert(Seq::<u8>::empty() + stream =~= stream);
    }
}

/// The lossy pass gives up the part of the interval above the next multiple
/// of `2^56`, which a stream that starts with the emitted byte cannot reach.
pub proof fn lemma_range_reduction_within(interval: Interval, stream: Seq<u8>)
    requires
        interval.wf(),
        !interval.top_byte_fixed(interval.upper_edge().unwrap()),
        within(interval.range_reduction_pass().0, stream),
    ensures
        within(interval, interval.range_reduction_pass().1 + stream),
{
    lemma_range_reduction_above(interval, stream);
    if interval.range < TOP16 {
        let emitted = interval.range_reduction_pass().1;
        let full = emitted + stream;
        let l = interval.lower_bound;
        let u = interval.upper_edge().unwrap();
        lemma_be_value_skip_first(full);
        lemma_be_value_bound(full.skip(1));
        lemma_top_byte(l);
        lemma_xor_top_byte(l, u);
        lemma_pow256_adds(7, (full.len() - 8) as nat);
        lemma_pow256_values();
        lemma_pow256_positive((full.len() - 8) as nat);
        let t = l as int / 0x0100_0000_0000_0000;
        let p = scale(full);
        let tail = pow256((full.len() - 1) as nat) as int;
        assert(full[0] == interval.top_byte());
        assert(u as int / 0x0100_0000_0000_0000 >= t + 1) by (nonlinear_arith)
            requires
                l <= u,
                t == l as int / 0x0100_0000_0000_0000,
                u as int / 0x0100_0000_0000_0000 != t,
        ;
        assert((l + interval.range) * p > (t + 1) * tail) by (nonlinear_arith)
            requires
                u == l + interval.range - 1,
                u as int / 0x0100_0000_0000_0000 >= t + 1,
                tail == 0x0100_0000_0000_0000 * p,
                p > 0,
        ;
        assert(be_value(full) < (t + 1) * tail) by (nonlinear_arith)
            requires
                be_value(full) == t * tail + be_value(full.skip(1)),
                be_value(full.skip(1)) < tail,
        ;
    }
}

/// A stream in an interval lies in every interval around it.
pub proof fn lemma_within_wider(inner: Interval, outer: Interval, stream: Seq<u8>)
    requires
        within(inner, stream),
        outer.lower_bound <= inner.lower_bound,
        inner.lower_bound + inner.range <= outer.lower_bound + outer.range,
    ensures
        within(outer, stream),
{
    let p = scale(stream);
    lemma_pow256_positive((stream.len() - 8) as nat);
    let a = outer.lower_bound as int;
    let b = inner.lower_bound as int;
    let c = inner.lower_bound + inner.range;
    let d = outer.lower_bound + outer.range;
    assert(a * p <= b * p && c * p <= d * p) by (nonlinear_arith)
        requires
            a <= b,
            c <= d,
            p > 0,
    ;
}

/// The first eight bytes of a stream in an interval spell a number in it.
pub proof fn lemma_within_window(interval: Interval, stream: Seq<u8>)
    requires
        within(interval, stream),
    ensures
        interval.lower_bound <= be_value(stream.take(8)) < interval.lower_bound + interval.range,
        be_value(stream.take(8)) <= u64::MAX,
{
    let window = be_value(stream.take(8)) as int;
    let rest = be_value(stream.skip(8)) as int;
    let p = scale(stream);
    let l = interval.lower_bound as int;
    let r = interval.range as int;
    assert(stream.take(8) + stream.skip(8) =~= stream);
    lemma_be_value_concat(stream.take(8), stream.skip(8));
    lemma_be_value_bound(stream.skip(8));
    lemma_be_value_bound(stream.take(8));
    lemma_pow256_values();
    lemma_pow256_positive((stream.len() - 8) as nat);
    assert(l <= window < l + r) by (nonlinear_arith)
        requires
            l * p <= window * p + rest,
            window * p + rest < (l + r) * p,
            0 <= rest < p,
    ;
}

} // verus!
