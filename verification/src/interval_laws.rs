//! What holds of narrowing: where it ends, how much it emits, and the only
//! ways in which it fails.
use vstd::prelude::*;
use crate::bits::{lemma_shift_left, lemma_xor_top_byte, TOP16, TOP8};
use crate::bytes::{
    be_bytes,
    lemma_be_bytes_index,
    lemma_be_bytes_len,
    lemma_pow256_values,
    pow256,
};
use crate::error::RangeCoderError;
use crate::interval::Interval;

verus! {

impl Interval {
    /// The lossless pass ends in an error or in a well-formed interval whose
    /// edges differ in their top byte.
    pub proof fn lemma_no_carry_wf(self)
        ensures
            self.no_carry_pass().output is Ok ==> {
                &&& self.no_carry_pass().interval.wf()
                &&& !self.no_carry_pass().interval.top_byte_fixed(
                    self.no_carry_pass().interval.upper_edge().unwrap(),
                )
            },
        decreases self.no_carry_measure(),
    {
        if self.wf() && self.top_byte_fixed(self.upper_edge().unwrap()) {
            self.lemma_no_carry_shift();
            self.shifted().lemma_no_carry_wf();
        }
    }

    /// The lossy pass ends in a settled interval.
    pub proof fn lemma_range_reduction_settled(self)
        requires
            self.lower_bound + self.range <= u64::MAX + 1,
        ensures
            self.range_reduction_pass().0.settled(),
        decreases self.range_reduction_measure(),
    {
        if self.range < TOP16 {
            self.lemma_range_reduction_shift();
            self.reduced().shifted().lemma_range_reduction_settled();
        }
    }

    /// Narrowing ends in a settled interval or in an error.
    pub proof fn lemma_narrow_settled(self, c_freq: u32, cum_freq: u32, total_freq: u32)
        ensures
            self.narrow(c_freq, cum_freq, total_freq).output is Ok ==> self.narrow(
                c_freq,
                cum_freq,
                total_freq,
            ).interval.settled(),
    {
        if self.lower_bound + self.symbol_offset(cum_freq, total_freq) <= u64::MAX {
            let divided = Interval {
                lower_bound: (self.lower_bound + self.symbol_offset(cum_freq, total_freq)) as u64,
                range: self.symbol_range(c_freq, cum_freq, total_freq) as u64,
            };
            divided.lemma_no_carry_wf();
            if divided.no_carry_pass().output is Ok {
                divided.no_carry_pass().interval.lemma_range_reduction_settled();
            }
        }
    }

    /// The lossless pass emits at most eight bytes: every shift scales the
    /// range by 256.
    pub proof fn lemma_no_carry_len(self, k: nat)
        requires
            k <= 7,
            self.range >= pow256(k),
        ensures
            match self.no_carry_pass().output {
                Ok(bytes) => bytes.len() <= 8 - k,
                Err(_) => true,
            },
        decreases self.no_carry_measure(),
    {
        if self.wf() && self.top_byte_fixed(self.upper_edge().unwrap()) {
            self.lemma_no_carry_shift();
            lemma_pow256_values();
            if self.range < TOP8 {
                if k == 7 {
                    assert(false);
                }
                self.shifted().lemma_no_carry_len(k + 1);
            }
        }
    }

    /// The lossy pass emits at most seven bytes: every shift clears one more
    /// byte at the low end of the lower bound, and with all of the low 48
    /// bits clear the widened range is wide enough.
    pub proof fn lemma_range_reduction_len(self, k: nat)
        requires
            k <= 6,
            self.lower_bound & low_mask(k) == 0,
        ensures
            self.range_reduction_pass().1.len() <= 7 - k,
        decreases self.range_reduction_measure(),
    {
        if self.range < TOP16 {
            self.lemma_range_reduction_shift();
            let next = self.reduced().shifted();
            lemma_low_bytes(self.lower_bound);
            if k < 6 {
                next.lemma_range_reduction_len(k + 1);
            } else {
                assert(next.range >= TOP16);
                assert(next.range_reduction_pass().1 == Seq::<u8>::empty());
            }
            assert(self.range_reduction_pass().1 == seq![self.top_byte()]
                + next.range_reduction_pass().1);
        }
    }

    /// Narrowing emits at most fifteen bytes.
    pub proof fn lemma_narrow_len(self, c_freq: u32, cum_freq: u32, total_freq: u32)
        ensures
            match self.narrow(c_freq, cum_freq, total_freq).output {
                Ok(bytes) => bytes.len() <= 15,
                Err(_) => true,
            },
    {
        if self.lower_bound + self.symbol_offset(cum_freq, total_freq) <= u64::MAX {
            let divided = self.divided(c_freq, cum_freq, total_freq);
            lemma_pow256_values();
            if divided.range >= 1 {
                divided.lemma_no_carry_len(0);
            }
            let carried = divided.no_carry_pass().interval;
            lemma_low_bytes(carried.lower_bound);
            carried.lemma_range_reduction_len(0);
        }
    }

    /// From a well-formed interval the lossless pass fails in one way only:
    /// it reaches an interval that fills a whole cell of the top byte, whose
    /// range a shift cannot hold.
    pub proof fn lemma_no_carry_failure(self)
        requires
            self.wf(),
        ensures
            self.no_carry_pass().output is Err ==> {
                &&& self.no_carry_pass().output == Err::<Seq<u8>, RangeCoderError>(
                    RangeCoderError::UpperBoundOverflow { lower_bound: 0, range: 0 },
                )
                &&& self.no_carry_pass().interval == (Interval { lower_bound: 0, range: 0 })
            },
        decreases self.no_carry_measure(),
    {
        let l = self.lower_bound;
        let u = self.upper_edge().unwrap();
        if self.top_byte_fixed(u) {
            self.lemma_no_carry_shift();
            lemma_xor_top_byte(l, u);
            lemma_shift_left(l);
            let low = l as int % 0x0100_0000_0000_0000;
            let r = self.range as int;
            assert(low + r <= 0x0100_0000_0000_0000) by (nonlinear_arith)
                requires
                    low == l as int % 0x0100_0000_0000_0000,
                    u == l + r - 1,
                    r >= 1,
                    l as int / 0x0100_0000_0000_0000 == u as int / 0x0100_0000_0000_0000,
            ;
            if self.range < TOP8 {
                self.shifted().lemma_no_carry_failure();
            }
        }
    }

    /// In a live session, where the interval is settled and the symbol has
    /// been counted, narrowing never overflows the lower bound, and it fails
    /// only where the lossless pass meets an interval that fills a whole cell
    /// of the top byte.
    pub proof fn lemma_narrow_failure(self, c_freq: u32, cum_freq: u32, total_freq: u32)
        requires
            self.settled(),
            c_freq > 0,
            c_freq + cum_freq <= total_freq,
        ensures
            self.narrow(c_freq, cum_freq, total_freq).output is Err ==> {
                &&& self.narrow(c_freq, cum_freq, total_freq).output == Err::<
                    Seq<u8>,
                    RangeCoderError,
                >(RangeCoderError::UpperBoundOverflow { lower_bound: 0, range: 0 })
                &&& self.narrow(c_freq, cum_freq, total_freq).interval == (Interval {
                    lower_bound: 0,
                    range: 0,
                })
            },
    {
        self.lemma_symbol_bounds(c_freq, cum_freq, total_freq);
        let r = self.range as int;
        let t = total_freq as int;
        let c = c_freq as int;
        let unit = self.unit(total_freq);
        let cum = cum_freq as int;
        assert(unit * c >= 1 && unit * cum + unit * c <= r && unit * cum >= 0) by (nonlinear_arith)
            requires
                unit == r / t,
                r >= 0x1_0000_0000_0000,
                0 < t <= 0xffff_ffff,
                c >= 1,
                cum >= 0,
                c + cum <= t,
        ;
        self.divided(c_freq, cum_freq, total_freq).lemma_no_carry_failure();
    }

    /// The lossless pass fails with `UpperBoundOverflow` only, and the error
    /// names the interval that it stopped at, which has no inclusive upper
    /// edge.
    pub proof fn lemma_no_carry_error(self)
        ensures
            match self.no_carry_pass().output {
                Ok(_) => true,
                Err(e) => {
                    &&& !self.no_carry_pass().interval.wf()
                    &&& e == (RangeCoderError::UpperBoundOverflow {
                        lower_bound: self.no_carry_pass().interval.lower_bound,
                        range: self.no_carry_pass().interval.range,
                    })
                },
            },
        decreases self.no_carry_measure(),
    {
        if self.wf() && self.top_byte_fixed(self.upper_edge().unwrap()) {
            self.lemma_no_carry_shift();
            self.shifted().lemma_no_carry_error();
        }
    }

    /// Overflow detection: narrowing reports `LowerBoundOverflow` exactly
    /// where the lower bound of the symbol's sub-interval does not fit in 64
    /// bits, and then with the values that did not add up. Every other
    /// failure is an `UpperBoundOverflow` that names the interval without an
    /// inclusive upper edge at which renormalisation stopped; a sub-interval
    /// that has none is reported at once. Where narrowing succeeds, nothing
    /// has wrapped: the sub-interval lies in the register as computed.
    pub proof fn lemma_narrow_overflow(self, c_freq: u32, cum_freq: u32, total_freq: u32)
        requires
            self.admits(c_freq, cum_freq, total_freq),
        ensures
            ({
                let narrowing = self.narrow(c_freq, cum_freq, total_freq);
                let add_val = self.symbol_offset(cum_freq, total_freq);
                let range = self.symbol_range(c_freq, cum_freq, total_freq);
                let divided = self.divided(c_freq, cum_freq, total_freq);
                &&& 0 <= add_val <= u64::MAX
                &&& 0 <= range <= u64::MAX
                &&& self.lower_bound + add_val > u64::MAX <==> narrowing.output == Err::<
                    Seq<u8>,
                    RangeCoderError,
                >(
                    RangeCoderError::LowerBoundOverflow {
                        lower_bound: self.lower_bound,
                        add_val: add_val as u64,
                        range: range as u64,
                    },
                )
                &&& self.lower_bound + add_val <= u64::MAX && narrowing.output is Err ==> {
                    &&& !narrowing.interval.wf()
                    &&& narrowing.output == Err::<Seq<u8>, RangeCoderError>(
                        RangeCoderError::UpperBoundOverflow {
                            lower_bound: narrowing.interval.lower_bound,
                            range: narrowing.interval.range,
                        },
                    )
                }
                &&& self.lower_bound + add_val <= u64::MAX && (range == 0 || self.lower_bound
                    + add_val + range - 1 > u64::MAX) ==> narrowing.output == Err::<
                    Seq<u8>,
                    RangeCoderError,
                >(
                    RangeCoderError::UpperBoundOverflow {
                        lower_bound: (self.lower_bound + add_val) as u64,
                        range: range as u64,
                    },
                )
                &&& narrowing.output is Ok ==> {
                    &&& divided.lower_bound == self.lower_bound + add_val
                    &&& divided.range == range
                    &&& divided.wf()
                }
            }),
    {
        let unit = self.unit(total_freq);
        let r = self.range as int;
        let t = total_freq as int;
        let c = c_freq as int;
        let cum = cum_freq as int;
        assert(unit >= 0 && unit * cum >= 0 && unit * c >= 0 && (cum <= t ==> unit * cum <= r))
            by (nonlinear_arith)
            requires
                unit == r / t,
                t > 0,
                r >= 0,
                c >= 0,
                cum >= 0,
        ;
        self.divided(c_freq, cum_freq, total_freq).lemma_no_carry_error();
    }

    /// Overflow detection: where the total exceeds the range, narrowing to a
    /// symbol below the top of the ordering leaves an empty interval and
    /// reports it.
    pub proof fn lemma_precision_exhausted(self, c_freq: u32, cum_freq: u32, total_freq: u32)
        requires
            self.range < total_freq,
            c_freq + cum_freq < total_freq,
        ensures
            self.narrow(c_freq, cum_freq, total_freq).output == Err::<Seq<u8>, RangeCoderError>(
                RangeCoderError::UpperBoundOverflow { lower_bound: self.lower_bound, range: 0 },
            ),
            self.narrow(c_freq, cum_freq, total_freq).interval == (Interval {
                lower_bound: self.lower_bound,
                range: 0,
            }),
    {
        let r = self.range as int;
        let t = total_freq as int;
        assert(r / t == 0) by (nonlinear_arith)
            requires
                0 <= r < t,
        ;
        assert(self.unit(total_freq) * cum_freq == 0 && self.unit(total_freq) * c_freq == 0)
            by (nonlinear_arith)
            requires
                self.unit(total_freq) == 0,
        ;
    }

    /// The lower bound after up to seven shifts.
    proof fn lemma_shift_chain(self)
        ensures
            self.shifted_by(0).lower_bound == self.lower_bound,
            self.shifted_by(1).lower_bound == self.lower_bound << 8,
            self.shifted_by(2).lower_bound == self.shifted_by(1).lower_bound << 8,
            self.shifted_by(3).lower_bound == self.shifted_by(2).lower_bound << 8,
            self.shifted_by(4).lower_bound == self.shifted_by(3).lower_bound << 8,
            self.shifted_by(5).lower_bound == self.shifted_by(4).lower_bound << 8,
            self.shifted_by(6).lower_bound == self.shifted_by(5).lower_bound << 8,
            self.shifted_by(7).lower_bound == self.shifted_by(6).lower_bound << 8,
    {
        reveal_with_fuel(Interval::shifted_by, 9);
    }

    /// Eight shifts emit the lower bound, highest byte first.
    pub proof fn lemma_flush(self)
        ensures
            be_bytes(self.lower_bound as nat, 8) =~= Seq::new(
                8,
                |j: int| self.shifted_by(j as nat).top_byte(),
            ),
    {
        let l = self.lower_bound;
        let x = l as nat;
        let digits = be_bytes(x, 8);
        self.lemma_shift_chain();
        lemma_top_bytes(
            l,
            self.shifted_by(1).lower_bound,
            self.shifted_by(2).lower_bound,
            self.shifted_by(3).lower_bound,
            self.shifted_by(4).lower_bound,
            self.shifted_by(5).lower_bound,
            self.shifted_by(6).lower_bound,
            self.shifted_by(7).lower_bound,
        );
        lemma_pow256_values();
        lemma_be_bytes_len(x, 8);
        assert forall|j: int| 0 <= j < 8 implies digits[j] == self.shifted_by(
            j as nat,
        ).top_byte() by {
            lemma_be_bytes_index(x, 8, j);
            let shifted = self.shifted_by(j as nat).lower_bound;
            let digit = (x / pow256((7 - j) as nat)) % 256;
            assert(((shifted >> 56) as u8) as u64 == digit);
        }
    }
}

/// The mask of the `k` lowest bytes of a register, for `k` up to six.
pub open spec fn low_mask(k: nat) -> u64 {
    if k == 0 {
        0
    } else if k == 1 {
        0xff
    } else if k == 2 {
        0xffff
    } else if k == 3 {
        0xff_ffff
    } else if k == 4 {
        0xffff_ffff
    } else if k == 5 {
        0xff_ffff_ffff
    } else {
        0xffff_ffff_ffff
    }
}

/// A shift clears one more byte at the low end of a register, and a register
/// whose low 48 bits are clear is widened to at least `2^48`.
proof fn lemma_low_bytes(l: u64)
    ensures
        l & low_mask(0) == 0,
        forall|k: nat| k < 6 && l & low_mask(k) == 0 ==> (l << 8) & #[trigger] low_mask(k + 1) == 0,
        l & low_mask(6) == 0 ==> ((!l & 0xffff_ffff_ffffu64) << 8) >= TOP16,
{
    assert(l & 0 == 0) by (bit_vector);
    assert((l << 8) & 0xff == 0) by (bit_vector);
    assert(l & 0xff == 0 ==> (l << 8) & 0xffff == 0) by (bit_vector);
    assert(l & 0xffff == 0 ==> (l << 8) & 0xff_ffff == 0) by (bit_vector);
    assert(l & 0xff_ffff == 0 ==> (l << 8) & 0xffff_ffff == 0) by (bit_vector);
    assert(l & 0xffff_ffff == 0 ==> (l << 8) & 0xff_ffff_ffff == 0) by (bit_vector);
    assert(l & 0xff_ffff_ffff == 0 ==> (l << 8) & 0xffff_ffff_ffff == 0) by (bit_vector);
    assert(l & 0xffff_ffff_ffff == 0 ==> ((!l & 0xffff_ffff_ffffu64) << 8)
        >= 0x1_0000_0000_0000u64) by (bit_vector);
}

/// The top bytes of a register under repeated shifts are its base-256
/// digits.
proof fn lemma_top_bytes(l: u64, l1: u64, l2: u64, l3: u64, l4: u64, l5: u64, l6: u64, l7: u64)
    by (bit_vector)
    requires
        l1 == l << 8,
        l2 == l1 << 8,
        l3 == l2 << 8,
        l4 == l3 << 8,
        l5 == l4 << 8,
        l6 == l5 << 8,
        l7 == l6 << 8,
    ensures
        ((l >> 56) as u8) as u64 == (l / 0x0100_0000_0000_0000) % 256,
        ((l1 >> 56) as u8) as u64 == (l / 0x0001_0000_0000_0000) % 256,
        ((l2 >> 56) as u8) as u64 == (l / 0x0000_0100_0000_0000) % 256,
        ((l3 >> 56) as u8) as u64 == (l / 0x0000_0001_0000_0000) % 256,
        ((l4 >> 56) as u8) as u64 == (l / 0x0000_0000_0100_0000) % 256,
        ((l5 >> 56) as u8) as u64 == (l / 0x0000_0000_0001_0000) % 256,
        ((l6 >> 56) as u8) as u64 == (l / 0x0000_0000_0000_0100) % 256,
        ((l7 >> 56) as u8) as u64 == l % 256,
{
}

} // verus!
