//! Bit-level facts about 64-bit words.

use vstd::prelude::*;

verus! {

/// Number of bits in one word of a packed stream.
pub const WORD_BITS: usize = 64;

/// Whether bit `k` of `x` is set, bit 0 being the least significant.
pub open spec fn bit_of(x: u64, k: u64) -> bool {
    (x >> k) & 1 == 1
}

/// Number of set bits among the lowest `n` bits of `x`.
pub open spec fn ones_below(x: u64, n: nat) -> nat
    decreases n,
{
    if n == 0 {
        0
    } else {
        ones_below(x, (n - 1) as nat) + if bit_of(x, (n - 1) as u64) {
            1nat
        } else {
            0nat
        }
    }
}

/// Number of set bits in `x`.
pub open spec fn ones(x: u64) -> nat {
    ones_below(x, 64)
}

/// `u64::count_ones` of the standard library: the number of ones in the
/// binary representation of the argument. Its documentation says exactly
/// that; the contract restates it over `ones`.
pub assume_specification[ u64::count_ones ](x: u64) -> (r: u32)
    ensures
        r == ones(x),
;

/// A bit of `a ^ b` is set exactly where `a` and `b` differ.
pub proof fn lemma_xor_bit(a: u64, b: u64, k: u64)
    requires
        k < 64,
    ensures
        bit_of(a ^ b, k) == (bit_of(a, k) != bit_of(b, k)),
{
    assert((((a ^ b) >> k) & 1 == 1) == ((((a >> k) & 1) == 1) != (((b >> k) & 1) == 1)))
        by (bit_vector)
        requires
            k < 64,
    ;
}

/// The word whose lowest `n` bits are set and no others.
pub open spec fn low_mask(n: nat) -> u64
    decreases n,
{
    if n == 0 {
        0
    } else {
        low_mask((n - 1) as nat) | (1u64 << ((n - 1) as u64))
    }
}

/// Two words that agree at every bit agree under the mask of the lowest
/// `n` bits, and that mask is one less than the `n`-th power of two.
proof fn lemma_low_bits_agree(a: u64, b: u64, n: nat)
    requires
        n <= 64,
        forall|k: u64| k < 64 ==> bit_of(a, k) == bit_of(b, k),
    ensures
        a & low_mask(n) == b & low_mask(n),
        n < 64 ==> low_mask(n) + 1 == (1u64 << (n as u64)),
        n == 64 ==> low_mask(n) == 0xffff_ffff_ffff_ffff,
    decreases n,
{
    if n == 0 {
        assert(a & 0 == b & 0) by (bit_vector);
        assert(0 + 1 == (1u64 << 0)) by (bit_vector);
    } else {
        lemma_low_bits_agree(a, b, (n - 1) as nat);
        let m = low_mask((n - 1) as nat);
        let j = (n - 1) as u64;
        assert(bit_of(a, j) == bit_of(b, j));
        assert(a & (m | (1u64 << j)) == b & (m | (1u64 << j))) by (bit_vector)
            requires
                j < 64,
                a & m == b & m,
                ((a >> j) & 1 == 1) == ((b >> j) & 1 == 1),
        ;
        if n < 64 {
            let next = n as u64;
            assert((m | (1u64 << j)) + 1 == (1u64 << next)) by (bit_vector)
                requires
                    j < 63,
                    next == j + 1,
                    m + 1 == (1u64 << j),
            ;
        } else {
            assert(m | (1u64 << j) == 0xffff_ffff_ffff_ffff) by (bit_vector)
                requires
                    j == 63,
                    m + 1 == (1u64 << j),
            ;
        }
    }
}

/// A word is its 64 bits: two words that agree at every bit are equal.
pub proof fn lemma_bits_decide(a: u64, b: u64)
    requires
        forall|k: u64| k < 64 ==> bit_of(a, k) == bit_of(b, k),
    ensures
        a == b,
{
    lemma_low_bits_agree(a, b, 64);
    let full = low_mask(64);
    assert(a == b) by (bit_vector)
        requires
            full == 0xffff_ffff_ffff_ffff,
            a & full == b & full,
    ;
}

/// The bits of a window that starts `s` bits into `v` and runs on into `w`.
pub proof fn lemma_window_bit(v: u64, w: u64, s: u64, k: u64)
    requires
        0 < s < 64,
        k < 64,
    ensures
        bit_of((v >> s) | (w << ((64 - s) as u64)), k) == if k + s < 64 {
            bit_of(v, (k + s) as u64)
        } else {
            bit_of(w, (k + s - 64) as u64)
        },
{
    let t: u64 = (64 - s) as u64;
    let lo: u64 = (k + s) as u64;
    let hi: u64 = if k + s >= 64 {
        (k + s - 64) as u64
    } else {
        0
    };
    assert(((((v >> s) | (w << t)) >> k) & 1 == 1) == if k + s < 64 {
        (v >> lo) & 1 == 1
    } else {
        (w >> hi) & 1 == 1
    }) by (bit_vector)
        requires
            0 < s < 64,
            k < 64,
            t == 64 - s,
            lo == k + s,
            k + s >= 64 ==> hi == k + s - 64,
    ;
}

/// Setting bit `j` leaves every other bit as it was.
pub proof fn lemma_set_bit(x: u64, j: u64, k: u64)
    requires
        j < 64,
        k < 64,
    ensures
        bit_of(x | (1u64 << j), k) == (k == j || bit_of(x, k)),
{
    assert((((x | (1u64 << j)) >> k) & 1 == 1) == (k == j || ((x >> k) & 1 == 1)))
        by (bit_vector)
        requires
            j < 64,
            k < 64,
    ;
}

/// The words 0 and 1: no bit set, and bit 0 alone.
pub proof fn lemma_unit_bits(k: u64)
    requires
        k < 64,
    ensures
        !bit_of(0, k),
        bit_of(1, k) == (k == 0),
{
    assert(!((0u64 >> k) & 1 == 1)) by (bit_vector);
    assert(((1u64 >> k) & 1 == 1) == (k == 0)) by (bit_vector)
        requires
            k < 64,
    ;
}

} // verus!
