//! Facts about the bit operators of `u128`, stated over `nat`.
//!
//! Every backing word is at most 128 bits wide, so the proofs for the narrower
//! words go through these by zero-extension.
use vstd::arithmetic::div_mod::{
    lemma_div_multiples_vanish, lemma_fundamental_div_mod_converse, lemma_mul_mod_noop_left,
    lemma_small_mod, lemma_truncate_middle,
};
use vstd::arithmetic::power2::{
    lemma2_to64, lemma_pow2_adds, lemma_pow2_pos, lemma_pow2_strictly_increases, lemma_pow2_unfold,
    pow2,
};
use vstd::bits::lemma_u128_shr_is_div;
use vstd::prelude::*;

verus! {

pub(crate) proof fn lemma_pow2_128()
    ensures
        pow2(128) == 0x1_0000_0000_0000_0000_0000_0000_0000_0000nat,
{
    lemma2_to64();
    lemma_pow2_adds(64, 64);
}

/// Shifting left by one doubles the value, modulo 2^128.
proof fn lemma_u128_shl_one(y: u128)
    ensures
        (y << 1u128) as nat == (y as nat * 2) % pow2(128),
{
    lemma_pow2_128();
    assert(y < 0x8000_0000_0000_0000_0000_0000_0000_0000u128 ==> (y << 1u128) == y * 2)
        by (bit_vector);
    assert(y >= 0x8000_0000_0000_0000_0000_0000_0000_0000u128 ==> (y << 1u128) == y * 2
        - 0x1_0000_0000_0000_0000_0000_0000_0000_0000) by (bit_vector);
    if y < 0x8000_0000_0000_0000_0000_0000_0000_0000u128 {
        lemma_small_mod(y as nat * 2, pow2(128));
    } else {
        let m = 0x1_0000_0000_0000_0000_0000_0000_0000_0000int;
        assert((y as int * 2) % m == y as int * 2 - m) by {
            lemma_fundamental_div_mod_converse(
                y as int * 2,
                m,
                1,
                y as int * 2 - m,
            );
        }
    }
}

/// Left shift of a `u128` is multiplication by a power of two, modulo 2^128.
pub(crate) proof fn lemma_u128_shl(x: u128, n: u128)
    requires
        n < 128,
    ensures
        (x << n) as nat == (x as nat * pow2(n as nat)) % pow2(128),
    decreases n,
{
    lemma_pow2_128();
    if n == 0 {
        assert(x << 0u128 == x) by (bit_vector);
        lemma2_to64();
        lemma_small_mod(x as nat, pow2(128));
    } else {
        let p = (n - 1) as u128;
        assert(x << n == (x << p) << 1u128) by (bit_vector)
            requires
                0 < n < 128,
                p == n - 1,
        ;
        lemma_u128_shl(x, p);
        lemma_u128_shl_one(x << p);
        lemma_pow2_unfold(n as nat);
        lemma_mul_mod_noop_left(x as int * pow2(p as nat), 2, pow2(128) as int);
        assert(x as int * pow2(p as nat) * 2 == x as int * pow2(n as nat)) by (nonlinear_arith)
            requires
                pow2(n as nat) == 2 * pow2(p as nat),
        ;
    }
}

/// Right shift of a `u128` is division by a power of two.
pub(crate) proof fn lemma_u128_shr(x: u128, n: u128)
    requires
        n < 128,
    ensures
        (x >> n) as nat == x as nat / pow2(n as nat),
{
    lemma_u128_shr_is_div(x, n);
}

/// The all-ones value of `k` bits, `k <= 128`, fits a `u128`.
pub(crate) proof fn lemma_low_ones_fit(k: nat)
    requires
        k <= 128,
    ensures
        0 < pow2(k) <= pow2(128),
        pow2(k) - 1 <= u128::MAX,
{
    lemma_pow2_128();
    lemma_pow2_pos(k);
    if k < 128 {
        lemma_pow2_strictly_increases(k, 128);
    }
}

/// Dropping the low `b` bits of the all-ones value of `a + b` bits leaves the
/// all-ones value of `a` bits.
pub(crate) proof fn lemma_low_ones_shr(a: nat, b: nat)
    ensures
        (pow2(a + b) - 1) / (pow2(b) as int) == pow2(a) - 1,
{
    lemma_pow2_pos(a);
    lemma_pow2_pos(b);
    lemma_pow2_adds(a, b);
    assert((pow2(a) - 1) * pow2(b) + (pow2(b) - 1) == pow2(a) * pow2(b) - 1) by (nonlinear_arith);
    lemma_fundamental_div_mod_converse(
        pow2(a + b) - 1,
        pow2(b) as int,
        pow2(a) - 1,
        pow2(b) - 1,
    );
}

/// And with the all-ones value of the low `k` bits keeps the value modulo 2^k.
pub(crate) proof fn lemma_u128_and_low_ones(x: u128, m: u128, k: nat)
    requires
        k <= 128,
        m == pow2(k) - 1,
    ensures
        (x & m) as nat == x as nat % pow2(k),
{
    lemma_pow2_128();
    lemma_pow2_pos(k);
    if k == 128 {
        assert(m == u128::MAX);
        assert(x & u128::MAX == x) by (bit_vector);
        lemma_small_mod(x as nat, pow2(128));
    } else if k == 0 {
        lemma2_to64();
        assert(x & 0u128 == 0u128) by (bit_vector);
    } else {
        let s: nat = (128 - k) as nat;
        let su = s as u128;
        lemma_pow2_pos(s);
        // The mask is the all-ones word shifted right by the other 128 - k bits.
        lemma_u128_shr(u128::MAX, su);
        lemma_low_ones_shr(k, s);
        lemma_pow2_adds(k, s);
        assert(m == u128::MAX >> su);
        assert(x & (u128::MAX >> su) == (x << su) >> su) by (bit_vector)
            requires
                0 < su < 128,
        ;
        // Shifting up then down by s bits drops the high s bits.
        lemma_u128_shl(x, su);
        lemma_u128_shr(x << su, su);
        lemma_truncate_middle(x as int, pow2(s) as int, pow2(k) as int);
        assert(x as int * pow2(s) == pow2(s) * x as int) by (nonlinear_arith);
        assert(pow2(s) * pow2(k) == pow2(k) * pow2(s)) by (nonlinear_arith);
        lemma_div_multiples_vanish((x as nat % pow2(k)) as int, pow2(s) as int);
    }
}

/// Or of a multiple of 2^k with a value below 2^k is their sum.
pub(crate) proof fn lemma_u128_or_disjoint(a: u128, b: u128, k: nat)
    requires
        k <= 128,
        a as nat % pow2(k) == 0,
        b < pow2(k),
    ensures
        (a | b) as nat == a + b,
{
    lemma_low_ones_fit(k);
    let m = (pow2(k) - 1) as u128;
    lemma_u128_and_low_ones(a, m, k);
    lemma_u128_and_low_ones(b, m, k);
    lemma_small_mod(b as nat, pow2(k));
    assert(a | b == a + b) by (bit_vector)
        requires
            a & m == 0,
            b & m == b,
    ;
}

} // verus!
