//! The encoder: it narrows the interval symbol by symbol and collects the
//! bytes that renormalisation emits.
use vstd::prelude::*;
use std::collections::VecDeque;
use crate::bytes::{be_bytes, lemma_be_bytes_len};
use crate::error::RangeCoderError;
use crate::pmodel::{FreqModel, PModel};
use crate::interval::Interval;
use crate::range_coder::RangeCoder;

verus! {

/// The mathematical value of an [`Encoder`].
pub struct EncoderView {
    pub interval: Interval,
    /// The bytes emitted so far, in the order in which a decoder consumes
    /// them.
    pub code: Seq<u8>,
}

/// What an encoding step leaves behind: the encoder's new value, and either
/// the number of bytes it emitted or the overflow that stopped it.
pub struct Encoding {
    pub encoder: EncoderView,
    pub output: Result<u32, RangeCoderError>,
}

impl EncoderView {
    /// An encoder at the start of a session.
    pub open spec fn start() -> EncoderView {
        EncoderView { interval: Interval::initial(), code: Seq::empty() }
    }

    /// One encoding step for the symbol `index` of a model.
    pub open spec fn encode(self, model: FreqModel, index: int) -> Encoding {
        let narrowing = self.interval.narrow(model.c[index], model.cum[index], model.total);
        match narrowing.output {
            Err(e) => Encoding {
                encoder: EncoderView { interval: narrowing.interval, code: self.code },
                output: Err(e),
            },
            Ok(bytes) => Encoding {
                encoder: EncoderView { interval: narrowing.interval, code: self.code + bytes },
                output: Ok(bytes.len() as u32),
            },
        }
    }

    /// The complete stream: the code so far and the eight bytes of the lower
    /// bound.
    pub open spec fn finish(self) -> Seq<u8> {
        self.code + be_bytes(self.interval.lower_bound as nat, 8)
    }
}

/// The encoding side of a session.
pub struct Encoder {
    range_coder: RangeCoder,
    code: VecDeque<u8>,
}

impl View for Encoder {
    type V = EncoderView;

    closed spec fn view(&self) -> EncoderView {
        EncoderView { interval: self.range_coder@, code: self.code@ }
    }
}

impl Default for Encoder {
    fn default() -> (encoder: Self)
        ensures
            encoder@ == EncoderView::start(),
    {
        Self { code: VecDeque::new(), range_coder: RangeCoder::new() }
    }
}

impl Encoder {
    pub fn new() -> (encoder: Self)
        ensures
            encoder@ == EncoderView::start(),
    {
        Self { code: VecDeque::new(), range_coder: RangeCoder::new() }
    }

    /// The arithmetic state of the session.
    pub fn range_coder(&self) -> (range_coder: &RangeCoder)
        ensures
            range_coder@ == self@.interval,
    {
        &self.range_coder
    }

    /// The bytes emitted so far.
    pub fn peek_code(&self) -> (code: &VecDeque<u8>)
        ensures
            code@ == self@.code,
    {
        &self.code
    }

    /// Encodes one symbol and returns the number of bytes that this emitted.
    pub fn encode<T: PModel>(&mut self, pmodel: &T, index: usize) -> (result: Result<
        u32,
        RangeCoderError,
    >)
        requires
            pmodel.model().finalized(),
            index < pmodel.model().len(),
        ensures
            final(self)@ == old(self)@.encode(pmodel.model(), index as int).encoder,
            result == old(self)@.encode(pmodel.model(), index as int).output,
    {
        proof {
            let model = pmodel.model();
            model.lemma_ordered(index as int, index as int);
            self@.interval.lemma_symbol_bounds(
                model.c[index as int],
                model.cum[index as int],
                model.total,
            );
        }
        let outbytes = match self.range_coder.param_update(
            pmodel.c_freq(index),
            pmodel.cum_freq(index),
            pmodel.total_freq(),
        ) {
            Ok(outbytes) => outbytes,
            Err(e) => {
                return Err(e);
            },
        };
        let len: usize = outbytes.len();
        let ghost narrowed = self.range_coder@;
        let mut i: usize = 0;
        while i < len
            invariant
                i <= len == outbytes@.len(),
                self.range_coder@ == narrowed,
                self.code@ == old(self)@.code + outbytes@.take(i as int),
            decreases len - i,
        {
            self.code.push_back(outbytes[i]);
            proof {
                assert(outbytes@.take(i + 1) =~= outbytes@.take(i as int).push(outbytes@[i as int]));
                assert((old(self)@.code + outbytes@.take(i as int)).push(outbytes@[i as int])
                    =~= old(self)@.code + outbytes@.take(i + 1));
            }
            i = i + 1;
        }
        proof {
            assert(outbytes@.take(len as int) =~= outbytes@);
        }
        Ok(len as u32)
    }

    /// Ends the session: flushes the lower bound and hands out the stream.
    pub fn finish(self) -> (code: VecDeque<u8>)
        ensures
            code@ == self@.finish(),
            code@.len() == self@.code.len() + 8,
    {
        let ghost start = self@;
        proof {
            lemma_be_bytes_len(start.interval.lower_bound as nat, 8);
        }
        let mut range_coder = self.range_coder;
        let mut code = self.code;
        let flush: [u8; 8] = range_coder.finish();
        let mut i: usize = 0;
        while i < 8
            invariant
                i <= 8,
                flush@.len() == 8,
                code@ == start.code + flush@.take(i as int),
            decreases 8 - i,
        {
            code.push_back(flush[i]);
            proof {
                assert((start.code + flush@.take(i as int)).push(flush@[i as int]) =~= start.code
                    + flush@.take(i + 1));
            }
            i = i + 1;
        }
        proof {
            assert(flush@.take(8) =~= flush@);
        }
        code
    }
}

} // verus!
