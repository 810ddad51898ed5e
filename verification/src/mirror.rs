//! Why a decoder mirrors the encoder that wrote its stream: the rest of the
//! stream lies in the sub-interval of the next symbol, so the window selects
//! that symbol, and both sides narrow alike.
use vstd::prelude::*;
use crate::bits::lemma_shift_in;
use crate::bytes::{
    be_bytes,
    be_value,
    lemma_be_bytes_len,
    lemma_be_bytes_value,
    lemma_be_value_bound,
    lemma_be_value_skip_first,
    lemma_pow256_values,
};
use crate::containment::{
    lemma_no_carry_within,
    lemma_range_reduction_within,
    lemma_within_wider,
    lemma_within_window,
    scale,
    within,
};
use crate::decoder::{shift_in, DecoderView};
use crate::encoder::EncoderView;
use crate::error::RangeCoderError;
use crate::interval::Interval;
use crate::pmodel::FreqModel;
use crate::session::{
    agree_on,
    all_codable,
    consumed,
    decode_run,
    emitted,
    encode_run,
    stream_of,
    symbols_of,
};

verus! {

/// What an encoder in the given interval still adds to its stream: the bytes
/// of the remaining symbols and the flush.
pub open spec fn rest_of_stream(model: FreqModel, interval: Interval, indices: Seq<usize>) -> Result<
    Seq<u8>,
    RangeCoderError,
>
    decreases indices.len(),
{
    if indices.len() == 0 {
        Ok(be_bytes(interval.lower_bound as nat, 8))
    } else {
        let index = indices[0] as int;
        let narrowing = interval.narrow(model.c[index], model.cum[index], model.total);
        match narrowing.output {
            Err(e) => Err(e),
            Ok(bytes) => match rest_of_stream(model, narrowing.interval, indices.skip(1)) {
                Err(e) => Err(e),
                Ok(rest) => Ok(bytes + rest),
            },
        }
    }
}

/// A run of the encoder appends the rest of the stream, without its flush,
/// to the code.
pub proof fn lemma_encode_run_appends(model: FreqModel, encoder: EncoderView, indices: Seq<usize>)
    requires
        model.finalized(),
        all_codable(model, indices),
    ensures
        match encode_run(model, encoder, indices) {
            Ok(end) => {
                &&& rest_of_stream(model, encoder.interval, indices) is Ok
                &&& end.finish() == encoder.code + rest_of_stream(
                    model,
                    encoder.interval,
                    indices,
                ).unwrap()
                &&& end.code.len() == encoder.code.len() + emitted(model, encoder, indices)
            },
            Err(e) => rest_of_stream(model, encoder.interval, indices) == Err::<
                Seq<u8>,
                RangeCoderError,
            >(e),
        },
    decreases indices.len(),
{
    if indices.len() == 0 {
        assert(encoder.code + be_bytes(encoder.interval.lower_bound as nat, 8)
            =~= encoder.finish());
    } else {
        let index = indices[0] as int;
        let step = encoder.encode(model, index);
        let narrowing = encoder.interval.narrow(model.c[index], model.cum[index], model.total);
        assert(model.codable(indices[0] as int));
        encoder.interval.lemma_narrow_len(model.c[index], model.cum[index], model.total);
        if let Ok(bytes) = narrowing.output {
            assert forall|k: int| 0 <= k < indices.skip(1).len() implies model.codable(
                #[trigger] indices.skip(1)[k] as int,
            ) by {
                assert(indices.skip(1)[k] == indices[k + 1]);
            }
            lemma_encode_run_appends(model, step.encoder, indices.skip(1));
            if let Ok(end) = encode_run(model, step.encoder, indices.skip(1)) {
                let rest = rest_of_stream(model, narrowing.interval, indices.skip(1)).unwrap();
                assert((encoder.code + bytes) + rest =~= encoder.code + (bytes + rest));
            }
        }
    }
}

/// The rest of a stream lies in the sub-interval of the next symbol, and so
/// in the interval itself.
pub proof fn lemma_rest_of_stream_within(model: FreqModel, interval: Interval, indices: Seq<usize>)
    requires
        model.finalized(),
        all_codable(model, indices),
        interval.wf(),
        rest_of_stream(model, interval, indices) is Ok,
    ensures
        within(interval, rest_of_stream(model, interval, indices).unwrap()),
        indices.len() > 0 ==> within(
            interval.divided(
                model.c[indices[0] as int],
                model.cum[indices[0] as int],
                model.total,
            ),
            rest_of_stream(model, interval, indices).unwrap(),
        ),
        indices.len() > 0 ==> interval.lower_bound + interval.symbol_offset(
            model.cum[indices[0] as int],
            model.total,
        ) <= u64::MAX,
    decreases indices.len(),
{
    let stream = rest_of_stream(model, interval, indices).unwrap();
    if indices.len() == 0 {
        lemma_be_bytes_len(interval.lower_bound as nat, 8);
        lemma_be_bytes_value(interval.lower_bound as nat, 8);
        lemma_pow256_values();
        assert(scale(stream) == 1);
        assert((interval.lower_bound + interval.range) * 1 == interval.lower_bound
            + interval.range);
        assert(interval.lower_bound * 1 == interval.lower_bound);
    } else {
        let index = indices[0] as int;
        assert(model.codable(indices[0] as int));
        let c = model.c[index];
        let cum = model.cum[index];
        model.lemma_ordered(index, index);
        interval.lemma_symbol_bounds(c, cum, model.total);
        interval.lemma_narrow_settled(c, cum, model.total);
        let divided = interval.divided(c, cum, model.total);
        let narrowing = interval.narrow(c, cum, model.total);
        let bytes = narrowing.output.unwrap();
        let rest = rest_of_stream(model, narrowing.interval, indices.skip(1)).unwrap();
        assert forall|k: int| 0 <= k < indices.skip(1).len() implies model.codable(
            #[trigger] indices.skip(1)[k] as int,
        ) by {
            assert(indices.skip(1)[k] == indices[k + 1]);
        }
        lemma_rest_of_stream_within(model, narrowing.interval, indices.skip(1));
        let carried = divided.no_carry_pass();
        let first = carried.output.unwrap();
        let second = carried.interval.range_reduction_pass().1;
        divided.lemma_no_carry_wf();
        lemma_range_reduction_within(carried.interval, rest);
        lemma_no_carry_within(divided, second + rest);
        assert(first + (second + rest) =~= (first + second) + rest);
        lemma_within_wider(divided, interval, stream);
    }
}

/// The window that a decoder holds after it has taken `n` bytes from a
/// stream spells the eight bytes of the stream from position `n`.
pub proof fn lemma_window_tracks(stream: Seq<u8>, n: nat)
    requires
        stream.len() >= 8 + n,
    ensures
        shift_in(be_value(stream.take(8)) as u64, stream.skip(8).take(n as int)) == be_value(
            stream.skip(n as int).take(8),
        ),
    decreases n,
{
    let taken = stream.skip(8).take(n as int);
    lemma_be_value_bound(stream.take(8));
    lemma_pow256_values();
    if n == 0 {
        assert(stream.skip(0) =~= stream);
    } else {
        let m = (n - 1) as nat;
        lemma_window_tracks(stream, m);
        assert(taken.drop_last() =~= stream.skip(8).take(m as int));
        assert(taken.last() == stream[8 + m as int]);
        let before = stream.skip(m as int).take(8);
        let after = stream.skip(n as int).take(8);
        let window = shift_in(be_value(stream.take(8)) as u64, taken.drop_last());
        lemma_be_value_bound(before);
        lemma_shift_in(window, taken.last());
        lemma_be_value_skip_first(before);
        assert(before.skip(1) =~= after.drop_last());
        assert(after.last() == stream[8 + m as int]);
    }
}

/// The symbol whose sub-interval holds the window is the one that the
/// window's target selects.
pub proof fn lemma_window_locates(model: FreqModel, interval: Interval, window: u64, index: int)
    requires
        model.finalized(),
        model.codable(index),
        interval.range >= model.total,
        interval.lower_bound + interval.symbol_offset(model.cum[index], model.total) <= window,
        window < interval.lower_bound + interval.symbol_offset(model.cum[index], model.total)
            + interval.symbol_range(model.c[index], model.cum[index], model.total),
    ensures
        model.locates((window - interval.lower_bound) / interval.unit(model.total), index),
{
    model.lemma_ordered(index, index);
    let x = window - interval.lower_bound;
    let r = interval.range as int;
    let t = model.total as int;
    let unit = r / t;
    let c = model.c[index] as int;
    let cum = model.cum[index] as int;
    assert(unit >= 1) by (nonlinear_arith)
        requires
            unit == r / t,
            r >= t,
            t > 0,
    ;
    assert(x / unit >= cum) by (nonlinear_arith)
        requires
            unit * cum <= x,
            unit >= 1,
    ;
    if cum + c < t {
        assert(x / unit < cum + c) by (nonlinear_arith)
            requires
                x < unit * cum + unit * c,
                unit >= 1,
                0 <= x,
        ;
    }
}

/// A decoder that holds the rest of an encoder's stream, in the encoder's
/// interval, decodes the encoder's remaining symbols and takes every byte.
pub proof fn lemma_decode_run_mirrors(
    model: FreqModel,
    encoder: EncoderView,
    decoder: DecoderView,
    indices: Seq<usize>,
)
    requires
        model.finalized(),
        all_codable(model, indices),
        decoder.wf(),
        encoder.interval == decoder.interval,
        rest_of_stream(model, decoder.interval, indices) is Ok,
        decoder.window == be_value(rest_of_stream(model, decoder.interval, indices).unwrap().take(8)),
        decoder.buffer == rest_of_stream(model, decoder.interval, indices).unwrap().skip(8),
    ensures
        decode_run(model, decoder, indices.len()) is Ok,
        decode_run(model, decoder, indices.len()).unwrap().1 == indices,
        decode_run(model, decoder, indices.len()).unwrap().0.buffer.len() == 0,
        consumed(model, decoder, indices.len()) == emitted(model, encoder, indices),
        consumed(model, decoder, indices.len()) == decoder.buffer.len(),
    decreases indices.len(),
{
    let stream = rest_of_stream(model, decoder.interval, indices).unwrap();
    if indices.len() == 0 {
        lemma_be_bytes_len(decoder.interval.lower_bound as nat, 8);
    } else {
        let index = indices[0] as int;
        assert(model.codable(indices[0] as int));
        let interval = decoder.interval;
        let c = model.c[index];
        let cum = model.cum[index];
        model.lemma_ordered(index, index);
        interval.lemma_symbol_bounds(c, cum, model.total);
        interval.lemma_narrow_settled(c, cum, model.total);
        interval.lemma_narrow_len(c, cum, model.total);
        lemma_rest_of_stream_within(model, interval, indices);
        let divided = interval.divided(c, cum, model.total);
        lemma_within_window(divided, stream);
        lemma_window_locates(model, interval, decoder.window, index);
        model.lemma_located(decoder.target(model.total), index);
        let narrowing = interval.narrow(c, cum, model.total);
        let bytes = narrowing.output.unwrap();
        let rest = rest_of_stream(model, narrowing.interval, indices.skip(1)).unwrap();
        assert forall|k: int| 0 <= k < indices.skip(1).len() implies model.codable(
            #[trigger] indices.skip(1)[k] as int,
        ) by {
            assert(indices.skip(1)[k] == indices[k + 1]);
        }
        lemma_rest_of_stream_within(model, narrowing.interval, indices.skip(1));
        let n = bytes.len();
        assert(stream.skip(n as int) =~= rest);
        lemma_window_tracks(stream, n);
        let step = decoder.decode(model);
        assert(step.output == Ok::<usize, RangeCoderError>(indices[0]));
        assert(step.decoder.buffer =~= rest.skip(8));
        let next = encoder.encode(model, index).encoder;
        lemma_decode_run_mirrors(model, next, step.decoder, indices.skip(1));
        assert(seq![indices[0]] + indices.skip(1) =~= indices);
    }
}

/// Two runs under models that agree on what is encoded end alike.
pub proof fn lemma_encode_run_deterministic(
    first: FreqModel,
    second: FreqModel,
    encoder: EncoderView,
    indices: Seq<usize>,
)
    requires
        agree_on(first, second, indices),
    ensures
        encode_run(first, encoder, indices) == encode_run(second, encoder, indices),
    decreases indices.len(),
{
    if indices.len() > 0 {
        assert(first.in_alphabet(indices[0] as int));
        let step = encoder.encode(first, indices[0] as int);
        assert forall|k: int| 0 <= k < indices.skip(1).len() implies {
            &&& first.in_alphabet(#[trigger] indices.skip(1)[k] as int)
            &&& second.in_alphabet(indices.skip(1)[k] as int)
            &&& first.c[indices.skip(1)[k] as int] == second.c[indices.skip(1)[k] as int]
            &&& first.cum[indices.skip(1)[k] as int] == second.cum[indices.skip(1)[k] as int]
        } by {
            assert(indices.skip(1)[k] == indices[k + 1]);
        }
        lemma_encode_run_deterministic(first, second, step.encoder, indices.skip(1));
    }
}

/// A new decoder on the stream of a complete session mirrors the session's
/// encoder step by step.
pub proof fn lemma_sessions_mirror(model: FreqModel, indices: Seq<usize>)
    requires
        model.finalized(),
        all_codable(model, indices),
        stream_of(model, indices) is Ok,
    ensures
        symbols_of(model, stream_of(model, indices).unwrap(), indices.len()) == Ok::<
            Seq<usize>,
            RangeCoderError,
        >(indices),
        consumed(
            model,
            DecoderView::start(stream_of(model, indices).unwrap()),
            indices.len(),
        ) == emitted(model, EncoderView::start(), indices),
        emitted(model, EncoderView::start(), indices) + 8 == stream_of(
            model,
            indices,
        ).unwrap().len(),
{
    let start = EncoderView::start();
    lemma_encode_run_appends(model, start, indices);
    let code = stream_of(model, indices).unwrap();
    let stream = rest_of_stream(model, start.interval, indices).unwrap();
    assert(code =~= stream);
    lemma_rest_of_stream_within(model, start.interval, indices);
    lemma_be_value_bound(code.take(8));
    lemma_pow256_values();
    lemma_decode_run_mirrors(model, start, DecoderView::start(code), indices);
}

} // verus!
