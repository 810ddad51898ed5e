//! The decoder: it replays the encoder's subdivisions on a window of the
//! code stream.
use vstd::prelude::*;
use std::collections::VecDeque;
use crate::bits::lemma_shift_in;
use crate::bytes::{be_value, lemma_be_value_bound, lemma_pow256_increases, lemma_pow256_values};
use crate::error::RangeCoderError;
use crate::pmodel::{FreqModel, PModel};
use crate::interval::Interval;
use crate::range_coder::RangeCoder;

verus! {

/// The mathematical value of a [`Decoder`].
pub struct DecoderView {
    /// The interval, which mirrors the encoder's.
    pub interval: Interval,
    /// The eight bytes of the stream at the position of the lower bound.
    pub window: u64,
    /// The bytes of the stream that have not entered the window yet.
    pub buffer: Seq<u8>,
}

/// What a decoding step leaves behind: the decoder's new value, and either
/// the decoded symbol or the reason why there is none.
pub struct Decoding {
    pub decoder: DecoderView,
    pub output: Result<usize, RangeCoderError>,
}

/// A window after the given bytes have been shifted in at its low end.
pub open spec fn shift_in(window: u64, bytes: Seq<u8>) -> u64
    decreases bytes.len(),
{
    if bytes.len() == 0 {
        window
    } else {
        (shift_in(window, bytes.drop_last()) << 8) | (bytes.last() as u64)
    }
}

/// Up to eight bytes shifted into an empty window spell its value.
pub proof fn lemma_shift_in_value(bytes: Seq<u8>)
    requires
        bytes.len() <= 8,
    ensures
        shift_in(0, bytes) == be_value(bytes),
    decreases bytes.len(),
{
    if bytes.len() > 0 {
        lemma_shift_in_value(bytes.drop_last());
        lemma_be_value_bound(bytes.drop_last());
        lemma_pow256_increases(bytes.drop_last().len(), 7);
        lemma_pow256_values();
        lemma_shift_in(shift_in(0, bytes.drop_last()), bytes.last());
    }
}

impl DecoderView {
    /// A decoder at the start of a stream of at least eight bytes: the
    /// first eight are in the window.
    pub open spec fn start(code: Seq<u8>) -> DecoderView {
        DecoderView {
            interval: Interval::initial(),
            window: be_value(code.take(8)) as u64,
            buffer: code.skip(8),
        }
    }

    /// The interval is settled, so that every model's total divides it into
    /// units of positive width.
    pub open spec fn wf(self) -> bool {
        self.interval.settled()
    }

    /// The cumulative frequency at which the window lies.
    pub open spec fn target(self, total_freq: u32) -> int {
        (self.window - self.interval.lower_bound) / self.interval.unit(total_freq)
    }

    /// One decoding step against a model.
    pub open spec fn decode(self, model: FreqModel) -> Decoding {
        if self.window < self.interval.lower_bound {
            Decoding { decoder: self, output: Err(RangeCoderError::MalformedStream) }
        } else {
            let index = model.located(self.target(model.total));
            let narrowing = self.interval.narrow(model.c[index], model.cum[index], model.total);
            match narrowing.output {
                Err(e) => Decoding {
                    decoder: DecoderView { interval: narrowing.interval, ..self },
                    output: Err(e),
                },
                Ok(bytes) => if self.buffer.len() < bytes.len() {
                    Decoding {
                        decoder: DecoderView { interval: narrowing.interval, ..self },
                        output: Err(RangeCoderError::MalformedStream),
                    }
                } else {
                    Decoding {
                        decoder: DecoderView {
                            interval: narrowing.interval,
                            window: shift_in(self.window, self.buffer.take(bytes.len() as int)),
                            buffer: self.buffer.skip(bytes.len() as int),
                        },
                        output: Ok(index as usize),
                    }
                },
            }
        }
    }
}

/// The decoding side of a session.
pub struct Decoder {
    range_coder: RangeCoder,
    data: u64,
    buffer: VecDeque<u8>,
}

impl View for Decoder {
    type V = DecoderView;

    closed spec fn view(&self) -> DecoderView {
        DecoderView { interval: self.range_coder@, window: self.data, buffer: self.buffer@ }
    }
}

impl Decoder {
    /// Starts a session on a code stream: the first eight bytes fill the
    /// window.
    pub fn new(code: VecDeque<u8>) -> (decoder: Self)
        requires
            code@.len() >= 8,
        ensures
            decoder@ == DecoderView::start(code@),
            decoder@.wf(),
    {
        let mut decoder = Self { range_coder: RangeCoder::new(), data: 0, buffer: code };
        decoder.shift_left_buffer(8);
        proof {
            lemma_shift_in_value(code@.take(8));
        }
        decoder
    }

    pub fn range_coder(&self) -> (range_coder: &RangeCoder)
        ensures
            range_coder@ == self@.interval,
    {
        &self.range_coder
    }

    pub fn data(&self) -> (data: u64)
        ensures
            data == self@.window,
    {
        self.data
    }

    /// Moves `n` bytes from the front of the buffer into the window.
    fn shift_left_buffer(&mut self, n: usize)
        requires
            n <= old(self)@.buffer.len(),
        ensures
            final(self)@ == (DecoderView {
                interval: old(self)@.interval,
                window: shift_in(old(self)@.window, old(self)@.buffer.take(n as int)),
                buffer: old(self)@.buffer.skip(n as int),
            }),
    {
        let mut i: usize = 0;
        while i < n
            invariant
                i <= n <= old(self)@.buffer.len(),
                self.range_coder == old(self).range_coder,
                self.data == shift_in(old(self)@.window, old(self)@.buffer.take(i as int)),
                self.buffer@ == old(self)@.buffer.skip(i as int),
            decreases n - i,
        {
            let byte: u8 = match self.buffer.pop_front() {
                Some(byte) => byte,
                None => 0,
            };
            proof {
                let all = old(self)@.buffer;
                assert(all.take(i + 1).drop_last() =~= all.take(i as int));
                assert(all.take(i + 1).last() == byte);
                assert(all.skip(i as int).subrange(1, all.skip(i as int).len() as int) =~= all.skip(
                    i + 1,
                ));
            }
            self.data = (self.data << 8) | (byte as u64);
            i = i + 1;
        }
    }

    /// Decodes one symbol. The stream is malformed where the window lies
    /// below the interval or the stream ends before the window is refilled.
    pub fn decode<T: PModel>(&mut self, pmodel: &T) -> (result: Result<usize, RangeCoderError>)
        requires
            old(self)@.wf(),
            pmodel.model().finalized(),
        ensures
            final(self)@ == old(self)@.decode(pmodel.model()).decoder,
            result == old(self)@.decode(pmodel.model()).output,
            result is Ok ==> final(self)@.wf(),
    {
        if self.data < self.range_coder.lower_bound() {
            return Err(RangeCoderError::MalformedStream);
        }
        let decode_index: usize = pmodel.find_index(self);
        proof {
            let model = pmodel.model();
            model.lemma_located(self@.target(model.total), decode_index as int);
            model.lemma_ordered(decode_index as int, decode_index as int);
            self@.interval.lemma_symbol_bounds(
                model.c[decode_index as int],
                model.cum[decode_index as int],
                model.total,
            );
            self@.interval.lemma_narrow_settled(
                model.c[decode_index as int],
                model.cum[decode_index as int],
                model.total,
            );
        }
        let bytes = match self.range_coder.param_update(
            pmodel.c_freq(decode_index),
            pmodel.cum_freq(decode_index),
            pmodel.total_freq(),
        ) {
            Ok(bytes) => bytes,
            Err(e) => {
                return Err(e);
            },
        };
        let n: usize = bytes.len();
        if self.buffer.len() < n {
            return Err(RangeCoderError::MalformedStream);
        }
        self.shift_left_buffer(n);
        Ok(decode_index)
    }
}

} // verus!
