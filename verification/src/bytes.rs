//! Byte sequences read as numbers, highest byte first.
use vstd::prelude::*;
use vstd::arithmetic::div_mod::{
    lemma_div_denominator,
    lemma_fundamental_div_mod_converse,
    lemma_mod_breakdown,
};

verus! {

/// `256^n`.
pub open spec fn pow256(n: nat) -> nat
    decreases n,
{
    if n == 0 {
        1
    } else {
        256 * pow256((n - 1) as nat)
    }
}

/// The number that a byte sequence spells, highest byte first.
pub open spec fn be_value(bytes: Seq<u8>) -> nat
    decreases bytes.len(),
{
    if bytes.len() == 0 {
        0
    } else {
        be_value(bytes.drop_last()) * 256 + bytes.last() as nat
    }
}

/// The `n` lowest base-256 digits of `x`, highest first.
pub open spec fn be_bytes(x: nat, n: nat) -> Seq<u8>
    decreases n,
{
    if n == 0 {
        Seq::empty()
    } else {
        be_bytes(x / 256, (n - 1) as nat).push((x % 256) as u8)
    }
}

/// The powers of 256 that bound the coder's registers.
pub proof fn lemma_pow256_values()
    ensures
        pow256(0) == 1,
        pow256(1) == 256,
        pow256(2) == 0x1_0000,
        pow256(3) == 0x100_0000,
        pow256(4) == 0x1_0000_0000,
        pow256(5) == 0x100_0000_0000,
        pow256(6) == 0x1_0000_0000_0000,
        pow256(7) == 0x0100_0000_0000_0000,
        pow256(8) == 0x1_0000_0000_0000_0000,
{
    reveal_with_fuel(pow256, 9);
}

pub proof fn lemma_pow256_increases(a: nat, b: nat)
    requires
        a <= b,
    ensures
        pow256(a) <= pow256(b),
    decreases b,
{
    if a < b {
        lemma_pow256_increases(a, (b - 1) as nat);
    }
}

pub proof fn lemma_pow256_positive(n: nat)
    ensures
        pow256(n) > 0,
    decreases n,
{
    if n > 0 {
        lemma_pow256_positive((n - 1) as nat);
    }
}

pub proof fn lemma_pow256_adds(a: nat, b: nat)
    ensures
        pow256(a + b) == pow256(a) * pow256(b),
    decreases a,
{
    if a > 0 {
        lemma_pow256_adds((a - 1) as nat, b);
        let pa = pow256((a - 1) as nat) as int;
        let pb = pow256(b) as int;
        assert(256 * (pa * pb) == (256 * pa) * pb) by (nonlinear_arith);
        assert(pow256(a + b) == 256 * pow256((a + b - 1) as nat));
    } else {
        assert(pow256(b) == 1 * pow256(b));
    }
}

/// A sequence of `n` bytes spells a number below `256^n`.
pub proof fn lemma_be_value_bound(bytes: Seq<u8>)
    ensures
        be_value(bytes) < pow256(bytes.len()),
    decreases bytes.len(),
{
    if bytes.len() > 0 {
        lemma_be_value_bound(bytes.drop_last());
    }
}

/// The value of two sequences joined.
pub proof fn lemma_be_value_concat(a: Seq<u8>, b: Seq<u8>)
    ensures
        be_value(a + b) == be_value(a) * pow256(b.len()) + be_value(b),
    decreases b.len(),
{
    if b.len() == 0 {
        assert(a + b =~= a);
        assert(pow256(0) == 1);
        assert(be_value(a) * 1 == be_value(a)) by (nonlinear_arith);
    } else {
        lemma_be_value_concat(a, b.drop_last());
        assert((a + b).drop_last() =~= a + b.drop_last());
        assert((a + b).last() == b.last());
        let va = be_value(a) as int;
        let p = pow256((b.len() - 1) as nat) as int;
        assert(pow256(b.len()) == 256 * p);
        assert(va * p * 256 == va * (256 * p)) by (nonlinear_arith);
        assert(be_value(a + b) == (va * p + be_value(b.drop_last())) * 256 + b.last());
    }
}

/// A sequence without its first byte spells the remainder by the power of
/// its length.
pub proof fn lemma_be_value_skip_first(bytes: Seq<u8>)
    requires
        bytes.len() > 0,
    ensures
        be_value(bytes.skip(1)) == be_value(bytes) % pow256((bytes.len() - 1) as nat),
        be_value(bytes) == bytes[0] * pow256((bytes.len() - 1) as nat) + be_value(bytes.skip(1)),
{
    let first = seq![bytes[0]];
    let rest = bytes.skip(1);
    assert(first + rest =~= bytes);
    lemma_be_value_concat(first, rest);
    lemma_be_value_bound(rest);
    assert(first.drop_last() =~= Seq::<u8>::empty());
    assert(be_value(first) == bytes[0]) by {
        reveal_with_fuel(be_value, 2);
    }
    let p = pow256(rest.len()) as int;
    lemma_fundamental_div_mod_converse(
        be_value(bytes) as int,
        p,
        bytes[0] as int,
        be_value(rest) as int,
    );
}

pub proof fn lemma_be_bytes_len(x: nat, n: nat)
    ensures
        be_bytes(x, n).len() == n,
    decreases n,
{
    if n > 0 {
        lemma_be_bytes_len(x / 256, (n - 1) as nat);
    }
}

/// Each digit of a number is a quotient by a power of 256, reduced to a
/// byte.
pub proof fn lemma_be_bytes_index(x: nat, n: nat, j: int)
    requires
        0 <= j < n,
    ensures
        be_bytes(x, n).len() == n,
        be_bytes(x, n)[j] == ((x / pow256((n - 1 - j) as nat)) % 256) as u8,
    decreases n,
{
    let m = (n - 1) as nat;
    lemma_be_bytes_len(x, n);
    lemma_be_bytes_len(x / 256, m);
    if j == n - 1 {
        assert(pow256(0) == 1);
        assert(x / pow256(0) == x / 1);
    } else {
        lemma_be_bytes_index(x / 256, m, j);
        let below = (n - 2 - j) as nat;
        lemma_pow256_positive(below);
        lemma_div_denominator(x as int, 256, pow256(below) as int);
        assert(pow256((n - 1 - j) as nat) == 256 * pow256(below));
        assert(be_bytes(x, n)[j] == be_bytes(x / 256, m)[j]);
    }
}

/// The digits of a number spell it, up to the power of their count.
pub proof fn lemma_be_bytes_value(x: nat, n: nat)
    ensures
        be_value(be_bytes(x, n)) == x % pow256(n),
    decreases n,
{
    if n > 0 {
        let m = (n - 1) as nat;
        lemma_be_bytes_value(x / 256, m);
        lemma_pow256_positive(m);
        let digits = be_bytes(x, n);
        assert(digits.drop_last() =~= be_bytes(x / 256, m));
        lemma_mod_breakdown(x as int, 256, pow256(m) as int);
    }
}

} // verus!
