//! The mathematical model of the coder's state: a half-open interval inside
//! a 64-bit register, and what narrowing it to a symbol's share does.
use vstd::prelude::*;
use crate::bits::{lemma_not_mask, lemma_shift_left, lemma_xor_top_byte, TOP16, TOP8};
use crate::error::RangeCoderError;

verus! {

/// The mathematical value of a [`RangeCoder`]: the interval
/// `[lower_bound, lower_bound + range)`.
pub struct Interval {
    pub lower_bound: u64,
    pub range: u64,
}

/// What narrowing leaves behind: the interval the coder ends in, and either
/// the bytes it emitted or the overflow that stopped it.
pub struct Narrowing {
    pub interval: Interval,
    pub output: Result<Seq<u8>, RangeCoderError>,
}

impl Interval {
    /// The interval every session starts from.
    pub open spec fn initial() -> Interval {
        Interval { lower_bound: 0, range: u64::MAX }
    }

    /// The range is positive and the inclusive upper edge fits in 64 bits.
    pub open spec fn wf(self) -> bool {
        self.range > 0 && self.lower_bound + self.range - 1 <= u64::MAX
    }

    /// Well formed, and wide enough that no renormalisation is pending.
    pub open spec fn settled(self) -> bool {
        self.wf() && self.range >= TOP16
    }

    /// The width given to one unit of frequency.
    pub open spec fn unit(self, total_freq: u32) -> int {
        self.range as int / total_freq as int
    }

    /// The end of the interval, `lower_bound + range`, where it fits in 64
    /// bits.
    pub open spec fn upper_bound(self) -> Result<u64, RangeCoderError> {
        if self.lower_bound + self.range <= u64::MAX {
            Ok((self.lower_bound + self.range) as u64)
        } else {
            Err(
                RangeCoderError::UpperBoundOverflow {
                    lower_bound: self.lower_bound,
                    range: self.range,
                },
            )
        }
    }

    /// The inclusive upper edge `lower_bound + range - 1`, where it exists.
    pub open spec fn upper_edge(self) -> Result<u64, RangeCoderError> {
        if self.wf() {
            Ok((self.lower_bound + self.range - 1) as u64)
        } else {
            Err(
                RangeCoderError::UpperBoundOverflow {
                    lower_bound: self.lower_bound,
                    range: self.range,
                },
            )
        }
    }

    /// The byte that a shift emits.
    pub open spec fn top_byte(self) -> u8 {
        (self.lower_bound >> 56) as u8
    }

    /// Both registers moved left by one byte.
    pub open spec fn shifted(self) -> Interval {
        Interval { lower_bound: self.lower_bound << 8, range: self.range << 8 }
    }

    /// The range replaced by the widest one under which the low 48 bits of
    /// the lower bound cannot carry.
    pub open spec fn reduced(self) -> Interval {
        Interval { lower_bound: self.lower_bound, range: !self.lower_bound & 0xffff_ffff_ffffu64 }
    }

    /// The lower and the inclusive upper edge agree in their top byte.
    pub open spec fn top_byte_fixed(self, upper: u64) -> bool {
        (self.lower_bound ^ upper) < TOP8
    }

    /// What the lossless pass counts down: the room left above the range.
    pub open spec fn no_carry_measure(self) -> int {
        if self.range == 0 {
            0
        } else {
            0x1_0000_0000_0000_0000 - self.range
        }
    }

    /// The lossless pass: while the top byte can no longer change, emit it
    /// and shift. It stops with an error where the upper edge does not exist.
    pub open spec fn no_carry_pass(self) -> Narrowing
        decreases self.no_carry_measure(),
    {
        match self.upper_edge() {
            Err(e) => Narrowing { interval: self, output: Err(e) },
            Ok(upper) => if self.top_byte_fixed(upper) {
                proof {
                    self.lemma_no_carry_shift();
                }
                let rest = self.shifted().no_carry_pass();
                Narrowing {
                    interval: rest.interval,
                    output: match rest.output {
                        Ok(bytes) => Ok(seq![self.top_byte()] + bytes),
                        Err(e) => Err(e),
                    },
                }
            } else {
                Narrowing { interval: self, output: Ok(Seq::empty()) }
            },
        }
    }

    /// A shift in the lossless pass either scales the range by 256 or, where
    /// the range was exactly `2^56`, leaves it at zero.
    pub proof fn lemma_no_carry_shift(self)
        requires
            self.wf(),
            self.top_byte_fixed(self.upper_edge().unwrap()),
        ensures
            self.range <= TOP8,
            self.range < TOP8 ==> self.shifted().range == self.range * 256,
            self.range == TOP8 ==> self.shifted().range == 0,
            self.shifted().no_carry_measure() < self.no_carry_measure(),
    {
        let l = self.lower_bound;
        let u = self.upper_edge().unwrap();
        let r = self.range;
        lemma_xor_top_byte(l, u);
        assert(u - l < TOP8) by (nonlinear_arith)
            requires
                l <= u,
                l / 0x0100_0000_0000_0000u64 == u / 0x0100_0000_0000_0000u64,
                TOP8 == 0x0100_0000_0000_0000u64,
        ;
        assert(r <= 0x0100_0000_0000_0000u64 ==> (r == 0x0100_0000_0000_0000u64 ==> (r << 8)
            == 0) && (r < 0x0100_0000_0000_0000u64 ==> (r << 8) == r * 256)) by (bit_vector);
    }

    /// What the lossy pass counts down: the low 48 bits of the lower bound,
    /// which every further shift lowers.
    pub open spec fn range_reduction_measure(self) -> int {
        if self.range >= TOP16 {
            0
        } else {
            1 + self.lower_bound as int % 0x1_0000_0000_0000
        }
    }

    /// The lossy pass: while the range is below `2^48`, widen it as far as the
    /// low 48 bits of the lower bound allow, emit the top byte and shift.
    pub open spec fn range_reduction_pass(self) -> (Interval, Seq<u8>)
        decreases self.range_reduction_measure(),
    {
        if self.range < TOP16 {
            proof {
                self.lemma_range_reduction_shift();
            }
            let rest = self.reduced().shifted().range_reduction_pass();
            (rest.0, seq![self.top_byte()] + rest.1)
        } else {
            (self, Seq::empty())
        }
    }

    /// One step of the lossy pass in arithmetic terms.
    pub proof fn lemma_range_reduction_shift(self)
        ensures
            self.reduced().range == 0xffff_ffff_ffff - self.lower_bound as int
                % 0x1_0000_0000_0000,
            self.reduced().shifted().range == self.reduced().range * 256,
            self.reduced().shifted().lower_bound == (self.lower_bound as int
                % 0x0100_0000_0000_0000) * 256,
            self.range < TOP16 ==> self.reduced().shifted().range_reduction_measure()
                < self.range_reduction_measure(),
    {
        let l = self.lower_bound;
        lemma_not_mask(l);
        lemma_shift_left(l);
        let m: u64 = !l & 0xffff_ffff_ffffu64;
        assert(m <= 0xffff_ffff_ffffu64 ==> (m << 8) == m * 256) by (bit_vector);
        assert(((!l & 0xffff_ffff_ffffu64) << 8) < 0x1_0000_0000_0000u64 ==> (l << 8)
            % 0x1_0000_0000_0000u64 < l % 0x1_0000_0000_0000u64) by (bit_vector);
    }

    /// Both passes in their order: the lossless one to exhaustion, then the
    /// lossy one.
    pub open spec fn renormalized(self) -> Narrowing {
        let first = self.no_carry_pass();
        match first.output {
            Err(e) => first,
            Ok(bytes) => {
                let second = first.interval.range_reduction_pass();
                Narrowing { interval: second.0, output: Ok(bytes + second.1) }
            },
        }
    }

    /// The width of the sub-interval of a symbol: the top symbol of the
    /// ordering also takes the remainder of the division.
    pub open spec fn symbol_range(self, c_freq: u32, cum_freq: u32, total_freq: u32) -> int {
        if cum_freq + c_freq == total_freq {
            self.range - self.unit(total_freq) * cum_freq
        } else {
            self.unit(total_freq) * c_freq
        }
    }

    /// The offset of the sub-interval of a symbol from the lower bound.
    pub open spec fn symbol_offset(self, cum_freq: u32, total_freq: u32) -> int {
        self.unit(total_freq) * cum_freq
    }

    /// The sub-interval of a symbol, where its lower bound fits in 64 bits.
    pub open spec fn divided(self, c_freq: u32, cum_freq: u32, total_freq: u32) -> Interval {
        Interval {
            lower_bound: (self.lower_bound + self.symbol_offset(cum_freq, total_freq)) as u64,
            range: self.symbol_range(c_freq, cum_freq, total_freq) as u64,
        }
    }

    /// The frequencies of a symbol can be put to the interval: the total is
    /// positive and the offset and the width that they ask for fit in 64
    /// bits. Every symbol of a model can, and so can others.
    pub open spec fn admits(self, c_freq: u32, cum_freq: u32, total_freq: u32) -> bool {
        &&& total_freq > 0
        &&& self.unit(total_freq) * cum_freq <= u64::MAX
        &&& self.unit(total_freq) * c_freq <= u64::MAX
    }

    /// Subdivision for one symbol followed by renormalisation. Where the
    /// lower bound of the sub-interval does not fit in 64 bits, the range is
    /// the symbol's and the lower bound stays.
    pub open spec fn narrow(self, c_freq: u32, cum_freq: u32, total_freq: u32) -> Narrowing {
        let add_val = self.symbol_offset(cum_freq, total_freq);
        let range = self.symbol_range(c_freq, cum_freq, total_freq) as u64;
        if self.lower_bound + add_val > u64::MAX {
            Narrowing {
                interval: Interval { lower_bound: self.lower_bound, range },
                output: Err(
                    RangeCoderError::LowerBoundOverflow {
                        lower_bound: self.lower_bound,
                        add_val: add_val as u64,
                        range,
                    },
                ),
            }
        } else {
            self.divided(c_freq, cum_freq, total_freq).renormalized()
        }
    }

    /// The interval after `n` shifts.
    pub open spec fn shifted_by(self, n: nat) -> Interval
        decreases n,
    {
        if n == 0 {
            self
        } else {
            self.shifted_by((n - 1) as nat).shifted()
        }
    }

    /// The offset and the width of a symbol fit in the range they divide.
    pub proof fn lemma_symbol_bounds(self, c_freq: u32, cum_freq: u32, total_freq: u32)
        requires
            total_freq > 0,
            c_freq + cum_freq <= total_freq,
        ensures
            0 <= self.symbol_offset(cum_freq, total_freq),
            0 <= self.symbol_range(c_freq, cum_freq, total_freq),
            self.symbol_offset(cum_freq, total_freq) + self.symbol_range(
                c_freq,
                cum_freq,
                total_freq,
            ) <= self.range,
            self.unit(total_freq) * total_freq <= self.range,
            self.unit(total_freq) * cum_freq <= self.range,
            self.unit(total_freq) * c_freq <= self.range,
            0 <= self.unit(total_freq),
    {
        let r = self.range as int;
        let t = total_freq as int;
        let c = c_freq as int;
        let cum = cum_freq as int;
        let unit = r / t;
        assert(0 <= unit && unit * t <= r && unit * cum >= 0 && unit * c >= 0 && unit * cum + unit
            * c <= unit * t && unit * cum <= unit * t && unit * c <= unit * t)
            by (nonlinear_arith)
            requires
                unit == r / t,
                t > 0,
                r >= 0,
                c >= 0,
                cum >= 0,
                c + cum <= t,
        ;
    }
}

} // verus!
