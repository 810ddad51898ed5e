//! Unsigned integers as fixed-width byte strings, highest byte first.
use vstd::prelude::*;
use vstd::arithmetic::div_mod::lemma_div_denominator;
use vstd::layout::layout_of_primitives;
use crate::bits::lemma_shift_in;
use crate::bytes::{
    be_bytes,
    be_value,
    lemma_be_value_bound,
    lemma_pow256_increases,
    lemma_pow256_positive,
    lemma_pow256_values,
    pow256,
};

verus! {

broadcast use layout_of_primitives;

/// An unsigned integer type that is written as as many bytes as it has,
/// highest byte first.
pub trait UEXT: Sized {
    /// The number of bytes of the type.
    spec fn width() -> nat;

    /// The number that a value stands for.
    spec fn value(self) -> nat;

    /// The bytes of the number, highest first.
    fn to_vec_u8(self) -> (bytes: Vec<u8>)
        ensures
            bytes@ == be_bytes(self.value(), Self::width()),
    ;

    /// The number that at most `width` bytes spell, highest first.
    fn from_vec_u8(v: &[u8]) -> (number: Self)
        requires
            v@.len() <= Self::width(),
        ensures
            number.value() == be_value(v@),
    ;
}

/// Right shifts by whole bytes are divisions by powers of 256, and the
/// lowest byte is the remainder by 256.
proof fn lemma_byte_shifts(x: u64)
    by (bit_vector)
    ensures
        x >> 0 == x,
        x >> 8 == x / 0x100,
        x >> 16 == x / 0x1_0000,
        x >> 24 == x / 0x100_0000,
        x >> 32 == x / 0x1_0000_0000,
        x >> 40 == x / 0x100_0000_0000,
        x >> 48 == x / 0x1_0000_0000_0000,
        x >> 56 == x / 0x100_0000_0000_0000,
{
}

proof fn lemma_low_byte(x: u64)
    by (bit_vector)
    ensures
        (x as u8) as u64 == x % 256,
{
}

/// The `n` lowest bytes of a number, highest first.
fn be_digits(x: u64, n: usize) -> (bytes: Vec<u8>)
    requires
        n <= 8,
    ensures
        bytes@ == be_bytes(x as nat, n as nat),
{
    let mut bytes: Vec<u8> = Vec::new();
    let mut k: usize = 0;
    proof {
        lemma_pow256_values();
    }
    while k < n
        invariant
            k <= n <= 8,
            bytes@ == be_bytes(x as nat / pow256((n - k) as nat), k as nat),
        decreases n - k,
    {
        let shift: usize = 8 * (n - 1 - k);
        let shifted: u64 = x >> shift;
        let byte: u8 = #[verifier::truncate]
        (shifted as u8);
        proof {
            let below = (n - 1 - k) as nat;
            lemma_byte_shifts(x);
            lemma_low_byte(shifted);
            lemma_pow256_values();
            lemma_pow256_positive(below);
            assert(shifted == x as nat / pow256(below)) by {
                if below == 0 {
                    assert(shifted == x >> 0);
                } else if below == 1 {
                    assert(shifted == x >> 8);
                } else if below == 2 {
                    assert(shifted == x >> 16);
                } else if below == 3 {
                    assert(shifted == x >> 24);
                } else if below == 4 {
                    assert(shifted == x >> 32);
                } else if below == 5 {
                    assert(shifted == x >> 40);
                } else if below == 6 {
                    assert(shifted == x >> 48);
                } else {
                    assert(shifted == x >> 56);
                }
            }
            lemma_div_denominator(x as int, pow256(below) as int, 256);
            assert(pow256((n - k) as nat) == 256 * pow256(below));
            assert(pow256(below) * 256 == 256 * pow256(below));
        }
        bytes.push(byte);
        k = k + 1;
    }
    proof {
        lemma_pow256_values();
        assert(x as nat / pow256(0) == x as nat / 1);
    }
    bytes
}

/// The number that at most eight bytes spell, highest first.
fn be_number(v: &[u8]) -> (number: u64)
    requires
        v@.len() <= 8,
    ensures
        number == be_value(v@),
{
    let mut number: u64 = 0;
    let mut j: usize = 0;
    while j < v.len()
        invariant
            j <= v@.len() <= 8,
            number == be_value(v@.take(j as int)),
        decreases v@.len() - j,
    {
        proof {
            lemma_be_value_bound(v@.take(j as int));
            lemma_pow256_increases(j as nat, 7);
            lemma_pow256_values();
            lemma_shift_in(number, v@[j as int]);
            assert(v@.take(j + 1).drop_last() =~= v@.take(j as int));
        }
        number = (number << 8) | (v[j] as u64);
        j = j + 1;
    }
    proof {
        assert(v@.take(v@.len() as int) =~= v@);
    }
    number
}

impl UEXT for u32 {
    open spec fn width() -> nat {
        4
    }

    open spec fn value(self) -> nat {
        self as nat
    }

    fn to_vec_u8(self) -> (bytes: Vec<u8>) {
        be_digits(self as u64, 4)
    }

    fn from_vec_u8(v: &[u8]) -> (number: Self) {
        proof {
            lemma_be_value_bound(v@);
            lemma_pow256_increases(v@.len(), 4);
            lemma_pow256_values();
        }
        be_number(v) as u32
    }
}

impl UEXT for usize {
    open spec fn width() -> nat {
        vstd::layout::size_of::<usize>()
    }

    open spec fn value(self) -> nat {
        self as nat
    }

    fn to_vec_u8(self) -> (bytes: Vec<u8>) {
        be_digits(self as u64, std::mem::size_of::<usize>())
    }

    fn from_vec_u8(v: &[u8]) -> (number: Self) {
        proof {
            lemma_be_value_bound(v@);
            lemma_pow256_increases(v@.len(), vstd::layout::size_of::<usize>());
            lemma_pow256_values();
        }
        be_number(v) as usize
    }
}

impl UEXT for u64 {
    open spec fn width() -> nat {
        8
    }

    open spec fn value(self) -> nat {
        self as nat
    }

    fn to_vec_u8(self) -> (bytes: Vec<u8>) {
        be_digits(self, 8)
    }

    fn from_vec_u8(v: &[u8]) -> (number: Self) {
        be_number(v)
    }
}

/// Reading back what was written gives the number that was written.
pub proof fn lemma_digits_spell_number(x: nat, n: nat)
    requires
        x < pow256(n),
    ensures
        be_value(be_bytes(x, n)) == x,
        be_bytes(x, n).len() == n,
{
    crate::bytes::lemma_be_bytes_value(x, n);
    crate::bytes::lemma_be_bytes_len(x, n);
    vstd::arithmetic::div_mod::lemma_small_mod(x, pow256(n));
}

} // verus!
