//! The coder's arithmetic state, narrowed once per symbol and renormalised
//! without carries.
use vstd::prelude::*;
use crate::bits::{TOP16, TOP8};
use crate::bytes::be_bytes;
use crate::error::RangeCoderError;
use crate::interval::Interval;

verus! {

/// The arithmetic state of one coding session.
pub struct RangeCoder {
    lower_bound: u64,
    range: u64,
}

impl View for RangeCoder {
    type V = Interval;

    closed spec fn view(&self) -> Interval {
        Interval { lower_bound: self.lower_bound, range: self.range }
    }
}

impl Default for RangeCoder {
    fn default() -> (coder: Self)
        ensures
            coder@ == Interval::initial(),
    {
        RangeCoder { lower_bound: 0, range: u64::MAX }
    }
}

impl RangeCoder {
    pub fn new() -> (coder: Self)
        ensures
            coder@ == Interval::initial(),
    {
        RangeCoder { lower_bound: 0, range: u64::MAX }
    }

    pub fn lower_bound(&self) -> (lower_bound: u64)
        ensures
            lower_bound == self@.lower_bound,
    {
        self.lower_bound
    }

    pub fn range(&self) -> (range: u64)
        ensures
            range == self@.range,
    {
        self.range
    }

    /// The width given to one unit of frequency.
    pub fn range_par_total(&self, total_freq: u32) -> (unit: u64)
        requires
            total_freq > 0,
        ensures
            unit == self@.unit(total_freq),
    {
        self.range / (total_freq as u64)
    }

    pub fn set_lower_bound(&mut self, new_lower_bound: u64)
        ensures
            final(self)@ == (Interval { lower_bound: new_lower_bound, range: old(self)@.range }),
    {
        self.lower_bound = new_lower_bound;
    }

    pub fn set_range(&mut self, range_new: u64)
        ensures
            final(self)@ == (Interval { lower_bound: old(self)@.lower_bound, range: range_new }),
    {
        self.range = range_new;
    }

    /// Narrows the interval to the sub-interval of one symbol and
    /// renormalises. Returns the bytes that renormalisation emitted, or the
    /// overflow that shows that the interval cannot hold the symbol:
    /// `LowerBoundOverflow` exactly where the lower bound of the
    /// sub-interval does not fit in 64 bits, `UpperBoundOverflow` else.
    pub fn param_update(&mut self, c_freq: u32, cum_freq: u32, total_freq: u32) -> (result: Result<
        Vec<u8>,
        RangeCoderError,
    >)
        requires
            old(self)@.admits(c_freq, cum_freq, total_freq),
        ensures
            final(self)@ == old(self)@.narrow(c_freq, cum_freq, total_freq).interval,
            match result {
                Ok(bytes) => final(self)@.settled() && bytes@.len() <= 15 && old(self)@.narrow(
                    c_freq,
                    cum_freq,
                    total_freq,
                ).output == Ok::<Seq<u8>, RangeCoderError>(bytes@),
                Err(e) => old(self)@.narrow(c_freq, cum_freq, total_freq).output == Err::<
                    Seq<u8>,
                    RangeCoderError,
                >(e),
            },
            match result {
                Ok(_) => old(self)@.lower_bound + old(self)@.symbol_offset(cum_freq, total_freq)
                    <= u64::MAX,
                Err(e) => if old(self)@.lower_bound + old(self)@.symbol_offset(
                    cum_freq,
                    total_freq,
                ) > u64::MAX {
                    e is LowerBoundOverflow
                } else {
                    e is UpperBoundOverflow
                },
            },
    {
        let mut out_bytes: Vec<u8> = Vec::new();
        let range_par_total: u64 = self.range_par_total(total_freq);
        proof {
            old(self)@.lemma_narrow_len(c_freq, cum_freq, total_freq);
            old(self)@.lemma_narrow_settled(c_freq, cum_freq, total_freq);
            old(self)@.lemma_narrow_overflow(c_freq, cum_freq, total_freq);
        }
        let add_val: u64 = range_par_total * (cum_freq as u64);
        if cum_freq as u64 + c_freq as u64 == total_freq as u64 {
            proof {
                old(self)@.lemma_symbol_bounds(c_freq, cum_freq, total_freq);
            }
            self.range = self.range - add_val;
        } else {
            self.range = range_par_total * (c_freq as u64);
        }
        match self.lower_bound.checked_add(add_val) {
            Some(new_lower_bound) => {
                self.lower_bound = new_lower_bound;
            },
            None => {
                return Err(
                    RangeCoderError::LowerBoundOverflow {
                        lower_bound: self.lower_bound,
                        add_val,
                        range: self.range,
                    },
                );
            },
        }
        let ghost divided = self@;
        loop
            invariant_except_break
                match self@.no_carry_pass().output {
                    Ok(rest) => divided.no_carry_pass().output == Ok::<Seq<u8>, RangeCoderError>(
                        out_bytes@ + rest,
                    ),
                    Err(e) => divided.no_carry_pass().output == Err::<Seq<u8>, RangeCoderError>(e),
                },
                self@.no_carry_pass().interval == divided.no_carry_pass().interval,
            invariant
                old(self)@.narrow(c_freq, cum_freq, total_freq) == divided.renormalized(),
            ensures
                divided.no_carry_pass().output == Ok::<Seq<u8>, RangeCoderError>(out_bytes@),
                divided.no_carry_pass().interval == self@,
            decreases self@.no_carry_measure(),
        {
            let ghost before = self@;
            match self.no_carry_expansion() {
                Err(e) => {
                    return Err(e);
                },
                Ok(None) => {
                    proof {
                        assert(out_bytes@ + Seq::<u8>::empty() =~= out_bytes@);
                    }
                    break ;
                },
                Ok(Some(byte)) => {
                    proof {
                        before.lemma_no_carry_shift();
                        let rest = self@.no_carry_pass().output;
                        if let Ok(bytes) = rest {
                            assert(out_bytes@ + (seq![byte] + bytes) =~= out_bytes@.push(byte)
                                + bytes);
                        }
                    }
                    out_bytes.push(byte);
                },
            }
        }
        let ghost carried = out_bytes@;
        let ghost widened = self@;
        loop
            invariant_except_break
                widened.range_reduction_pass().0 == self@.range_reduction_pass().0,
                carried + widened.range_reduction_pass().1 == out_bytes@
                    + self@.range_reduction_pass().1,
            invariant
                old(self)@.narrow(c_freq, cum_freq, total_freq) == divided.renormalized(),
                divided.no_carry_pass().output == Ok::<Seq<u8>, RangeCoderError>(carried),
                divided.no_carry_pass().interval == widened,
            ensures
                widened.range_reduction_pass().0 == self@,
                carried + widened.range_reduction_pass().1 == out_bytes@,
            decreases self@.range_reduction_measure(),
        {
            let ghost before = self@;
            match self.range_reduction_expansion() {
                None => {
                    proof {
                        assert(out_bytes@ + Seq::<u8>::empty() =~= out_bytes@);
                    }
                    break ;
                },
                Some(byte) => {
                    proof {
                        before.lemma_range_reduction_shift();
                        assert(out_bytes@ + (seq![byte] + self@.range_reduction_pass().1)
                            =~= out_bytes@.push(byte) + self@.range_reduction_pass().1);
                    }
                    out_bytes.push(byte);
                },
            }
        }
        Ok(out_bytes)
    }

    /// Emits the top byte of the lower bound and shifts both registers left
    /// by one byte.
    pub fn left_shift(&mut self) -> (byte: u8)
        ensures
            byte == old(self)@.top_byte(),
            final(self)@ == old(self)@.shifted(),
    {
        let tmp: u8 = (self.lower_bound >> 56) as u8;
        self.range = self.range << 8;
        self.lower_bound = self.lower_bound << 8;
        tmp
    }

    /// One step of the lossless pass, if it applies.
    fn no_carry_expansion(&mut self) -> (result: Result<Option<u8>, RangeCoderError>)
        ensures
            match result {
                Err(e) => old(self)@.upper_edge() == Err::<u64, RangeCoderError>(e) && final(self)@
                    == old(self)@,
                Ok(None) => old(self)@.wf() && !old(self)@.top_byte_fixed(
                    old(self)@.upper_edge().unwrap(),
                ) && final(self)@ == old(self)@,
                Ok(Some(byte)) => old(self)@.wf() && old(self)@.top_byte_fixed(
                    old(self)@.upper_edge().unwrap(),
                ) && byte == old(self)@.top_byte() && final(self)@ == old(self)@.shifted(),
            },
    {
        let upper: u64 = match self.upper_edge() {
            Ok(upper) => upper,
            Err(e) => {
                return Err(e);
            },
        };
        if self.lower_bound ^ upper < TOP8 {
            Ok(Some(self.left_shift()))
        } else {
            Ok(None)
        }
    }

    /// One step of the lossy pass, if it applies.
    fn range_reduction_expansion(&mut self) -> (result: Option<u8>)
        ensures
            match result {
                None => old(self)@.range >= TOP16 && final(self)@ == old(self)@,
                Some(byte) => old(self)@.range < TOP16 && byte == old(self)@.top_byte()
                    && final(self)@ == old(self)@.reduced().shifted(),
            },
    {
        if self.range < TOP16 {
            let range_new: u64 = !self.lower_bound & (TOP16 - 1);
            self.set_range(range_new);
            Some(self.left_shift())
        } else {
            None
        }
    }

    /// The end of the interval, `lower_bound + range`, or the overflow where
    /// the sum does not fit in 64 bits.
    pub fn upper_bound(&self) -> (result: Result<u64, RangeCoderError>)
        ensures
            result == self@.upper_bound(),
    {
        match self.lower_bound.checked_add(self.range) {
            Some(upper_bound) => Ok(upper_bound),
            None => Err(
                RangeCoderError::UpperBoundOverflow {
                    lower_bound: self.lower_bound,
                    range: self.range,
                },
            ),
        }
    }

    /// The inclusive upper edge `lower_bound + range - 1`, or the overflow
    /// where the range is empty or the edge does not fit in 64 bits.
    fn upper_edge(&self) -> (result: Result<u64, RangeCoderError>)
        ensures
            result == self@.upper_edge(),
    {
        if self.range == 0 {
            return Err(
                RangeCoderError::UpperBoundOverflow {
                    lower_bound: self.lower_bound,
                    range: self.range,
                },
            );
        }
        match self.lower_bound.checked_add(self.range - 1) {
            Some(upper_edge) => Ok(upper_edge),
            None => Err(
                RangeCoderError::UpperBoundOverflow {
                    lower_bound: self.lower_bound,
                    range: self.range,
                },
            ),
        }
    }

    /// Flushes the register: the eight bytes of the lower bound, highest
    /// first. The session is over afterwards.
    pub fn finish(&mut self) -> (bytes: [u8; 8])
        ensures
            bytes@ == be_bytes(old(self)@.lower_bound as nat, 8),
            final(self)@ == old(self)@.shifted_by(8),
    {
        let mut bytes: [u8; 8] = [0u8; 8];
        let mut i: usize = 0;
        while i < 8
            invariant
                i <= 8,
                self@ == old(self)@.shifted_by(i as nat),
                forall|j: int|
                    0 <= j < i ==> bytes@[j] == old(self)@.shifted_by(j as nat).top_byte(),
            decreases 8 - i,
        {
            let byte: u8 = self.left_shift();
            bytes[i] = byte;
            i = i + 1;
        }
        proof {
            old(self)@.lemma_flush();
        }
        bytes
    }
}

} // verus!
