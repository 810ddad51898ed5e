//! Whole sessions: a sequence of symbols encoded into a stream, a stream
//! decoded into a sequence of symbols, and what holds between the two.
use vstd::prelude::*;
use std::collections::VecDeque;
use crate::decoder::{Decoder, DecoderView};
use crate::encoder::{Encoder, EncoderView};
use crate::error::RangeCoderError;
use crate::mirror::{lemma_encode_run_deterministic, lemma_sessions_mirror};
use crate::pmodel::{FreqModel, PModel};

verus! {

/// Every symbol of the sequence can be encoded under the model.
pub open spec fn all_codable(model: FreqModel, indices: Seq<usize>) -> bool {
    forall|k: int| 0 <= k < indices.len() ==> model.codable(#[trigger] indices[k] as int)
}

/// The encoder after it has encoded a sequence of symbols, one after the
/// other, or the overflow that stopped it.
pub open spec fn encode_run(model: FreqModel, encoder: EncoderView, indices: Seq<usize>) -> Result<
    EncoderView,
    RangeCoderError,
>
    decreases indices.len(),
{
    if indices.len() == 0 {
        Ok(encoder)
    } else {
        let step = encoder.encode(model, indices[0] as int);
        match step.output {
            Err(e) => Err(e),
            Ok(_) => encode_run(model, step.encoder, indices.skip(1)),
        }
    }
}

/// The number of bytes that the steps of `encode_run` report together.
pub open spec fn emitted(model: FreqModel, encoder: EncoderView, indices: Seq<usize>) -> nat
    decreases indices.len(),
{
    if indices.len() == 0 {
        0
    } else {
        let step = encoder.encode(model, indices[0] as int);
        match step.output {
            Err(_) => 0,
            Ok(n) => n as nat + emitted(model, step.encoder, indices.skip(1)),
        }
    }
}

/// The stream of a complete session: a new encoder, the symbols, the flush.
pub open spec fn stream_of(model: FreqModel, indices: Seq<usize>) -> Result<
    Seq<u8>,
    RangeCoderError,
> {
    match encode_run(model, EncoderView::start(), indices) {
        Ok(encoder) => Ok(encoder.finish()),
        Err(e) => Err(e),
    }
}

/// The decoder after `count` decoding steps and the symbols they gave, or
/// the error that stopped it.
pub open spec fn decode_run(model: FreqModel, decoder: DecoderView, count: nat) -> Result<
    (DecoderView, Seq<usize>),
    RangeCoderError,
>
    decreases count,
{
    if count == 0 {
        Ok((decoder, Seq::empty()))
    } else {
        let step = decoder.decode(model);
        match step.output {
            Err(e) => Err(e),
            Ok(index) => match decode_run(model, step.decoder, (count - 1) as nat) {
                Err(e) => Err(e),
                Ok(rest) => Ok((rest.0, seq![index] + rest.1)),
            },
        }
    }
}

/// The number of bytes that the steps of `decode_run` take from the buffer
/// together.
pub open spec fn consumed(model: FreqModel, decoder: DecoderView, count: nat) -> nat
    decreases count,
{
    if count == 0 {
        0
    } else {
        let step = decoder.decode(model);
        match step.output {
            Err(_) => 0,
            Ok(_) => (decoder.buffer.len() - step.decoder.buffer.len()) as nat + consumed(
                model,
                step.decoder,
                (count - 1) as nat,
            ),
        }
    }
}

/// The symbols of a complete session: a new decoder on the stream, `count`
/// decoding steps.
pub open spec fn symbols_of(model: FreqModel, code: Seq<u8>, count: nat) -> Result<
    Seq<usize>,
    RangeCoderError,
> {
    match decode_run(model, DecoderView::start(code), count) {
        Ok(end) => Ok(end.1),
        Err(e) => Err(e),
    }
}

/// Runs a complete encoding session: a new encoder, the symbols in their
/// order, the flush.
pub fn encode_all<T: PModel>(pmodel: &T, indices: &[usize]) -> (result: Result<
    VecDeque<u8>,
    RangeCoderError,
>)
    requires
        pmodel.model().finalized(),
        forall|k: int| 0 <= k < indices@.len() ==> indices@[k] < pmodel.model().len(),
    ensures
        match result {
            Ok(code) => code@.len() >= 8 && stream_of(pmodel.model(), indices@) == Ok::<
                Seq<u8>,
                RangeCoderError,
            >(code@),
            Err(e) => stream_of(pmodel.model(), indices@) == Err::<Seq<u8>, RangeCoderError>(e),
        },
{
    let mut encoder = Encoder::new();
    let mut i: usize = 0;
    proof {
        assert(indices@.skip(0) =~= indices@);
    }
    while i < indices.len()
        invariant
            i <= indices@.len(),
            pmodel.model().finalized(),
            forall|k: int| 0 <= k < indices@.len() ==> indices@[k] < pmodel.model().len(),
            encode_run(pmodel.model(), EncoderView::start(), indices@) == encode_run(
                pmodel.model(),
                encoder@,
                indices@.skip(i as int),
            ),
        decreases indices@.len() - i,
    {
        proof {
            assert(indices@.skip(i as int).skip(1) =~= indices@.skip(i + 1));
        }
        match encoder.encode(pmodel, indices[i]) {
            Ok(_) => {},
            Err(e) => {
                return Err(e);
            },
        }
        i = i + 1;
    }
    Ok(encoder.finish())
}

/// Runs a complete decoding session: a new decoder on the stream, `count`
/// decoding steps.
pub fn decode_all<T: PModel>(pmodel: &T, code: VecDeque<u8>, count: usize) -> (result: Result<
    Vec<usize>,
    RangeCoderError,
>)
    requires
        pmodel.model().finalized(),
        code@.len() >= 8,
    ensures
        match result {
            Ok(symbols) => symbols_of(pmodel.model(), code@, count as nat) == Ok::<
                Seq<usize>,
                RangeCoderError,
            >(symbols@),
            Err(e) => symbols_of(pmodel.model(), code@, count as nat) == Err::<
                Seq<usize>,
                RangeCoderError,
            >(e),
        },
{
    let ghost start = DecoderView::start(code@);
    let mut decoder = Decoder::new(code);
    let mut symbols: Vec<usize> = Vec::new();
    let mut i: usize = 0;
    while i < count
        invariant
            i <= count,
            pmodel.model().finalized(),
            decoder@.wf(),
            start == DecoderView::start(code@),
            match decode_run(pmodel.model(), decoder@, (count - i) as nat) {
                Ok(end) => decode_run(pmodel.model(), start, count as nat) == Ok::<
                    (DecoderView, Seq<usize>),
                    RangeCoderError,
                >((end.0, symbols@ + end.1)),
                Err(e) => decode_run(pmodel.model(), start, count as nat) == Err::<
                    (DecoderView, Seq<usize>),
                    RangeCoderError,
                >(e),
            },
        decreases count - i,
    {
        let ghost before = decoder@;
        let ghost rest = decode_run(pmodel.model(), before, (count - i) as nat);
        match decoder.decode(pmodel) {
            Ok(index) => {
                proof {
                    let after = decode_run(pmodel.model(), decoder@, (count - i - 1) as nat);
                    match after {
                        Ok(end) => {
                            assert(rest == Ok::<(DecoderView, Seq<usize>), RangeCoderError>(
                                (end.0, seq![index] + end.1),
                            ));
                            assert(symbols@ + (seq![index] + end.1) =~= symbols@.push(index)
                                + end.1);
                        },
                        Err(e) => {
                            assert(rest == Err::<(DecoderView, Seq<usize>), RangeCoderError>(e));
                        },
                    }
                }
                symbols.push(index);
            },
            Err(e) => {
                proof {
                    assert(rest == Err::<(DecoderView, Seq<usize>), RangeCoderError>(e));
                }
                return Err(e);
            },
        }
        i = i + 1;
    }
    proof {
        assert(symbols@ + Seq::<usize>::empty() =~= symbols@);
    }
    Ok(symbols)
}

/// Round trip: the stream of a session that encodes a sequence of codable
/// symbols under a finalized model decodes, under the same model and for
/// the same number of symbols, to that sequence.
pub proof fn lemma_round_trip(model: FreqModel, indices: Seq<usize>)
    requires
        model.finalized(),
        all_codable(model, indices),
        stream_of(model, indices) is Ok,
    ensures
        symbols_of(model, stream_of(model, indices).unwrap(), indices.len()) == Ok::<
            Seq<usize>,
            RangeCoderError,
        >(indices),
{
    lemma_sessions_mirror(model, indices);
}

/// Uniqueness: under one model, two sequences of codable symbols of the same
/// length that encode to the same stream are the same sequence.
pub proof fn lemma_streams_distinct(model: FreqModel, first: Seq<usize>, second: Seq<usize>)
    requires
        model.finalized(),
        all_codable(model, first),
        all_codable(model, second),
        first.len() == second.len(),
        stream_of(model, first) is Ok,
        stream_of(model, first) == stream_of(model, second),
    ensures
        first == second,
{
    lemma_round_trip(model, first);
    lemma_round_trip(model, second);
}

/// Byte conservation: the bytes that the encoding steps report and the eight
/// bytes of the flush are as many as the eight bytes that a new decoder takes
/// and the bytes that its decoding steps take, and they are the whole stream.
pub proof fn lemma_byte_conservation(model: FreqModel, indices: Seq<usize>)
    requires
        model.finalized(),
        all_codable(model, indices),
        stream_of(model, indices) is Ok,
    ensures
        emitted(model, EncoderView::start(), indices) + 8 == 8 + consumed(
            model,
            DecoderView::start(stream_of(model, indices).unwrap()),
            indices.len(),
        ),
        emitted(model, EncoderView::start(), indices) + 8 == stream_of(
            model,
            indices,
        ).unwrap().len(),
        DecoderView::start(stream_of(model, indices).unwrap()).buffer.len() + 8 == stream_of(
            model,
            indices,
        ).unwrap().len(),
{
    lemma_sessions_mirror(model, indices);
}

/// Two models agree on the total and on the frequencies of the given
/// symbols.
pub open spec fn agree_on(first: FreqModel, second: FreqModel, indices: Seq<usize>) -> bool {
    &&& first.total == second.total
    &&& forall|k: int|
        0 <= k < indices.len() ==> {
            &&& first.in_alphabet(#[trigger] indices[k] as int)
            &&& second.in_alphabet(indices[k] as int)
            &&& first.c[indices[k] as int] == second.c[indices[k] as int]
            &&& first.cum[indices[k] as int] == second.cum[indices[k] as int]
        }
}

/// Determinism: the stream depends on the model only through the total and
/// the frequencies of the symbols that are encoded. Two sessions that agree
/// on them give the same stream, or fail alike.
pub proof fn lemma_encoding_deterministic(first: FreqModel, second: FreqModel, indices: Seq<usize>)
    requires
        agree_on(first, second, indices),
    ensures
        stream_of(first, indices) == stream_of(second, indices),
{
    lemma_encode_run_deterministic(first, second, EncoderView::start(), indices);
}

} // verus!
