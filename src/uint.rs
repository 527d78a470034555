//! The backing words: fixed-width unsigned integers, viewed as natural numbers.
use crate::bits::{
    lemma_low_ones_fit, lemma_low_ones_shr, lemma_pow2_128, lemma_u128_and_low_ones,
    lemma_u128_or_disjoint, lemma_u128_shl, lemma_u128_shr,
};
use vstd::arithmetic::div_mod::lemma_mod_mod;
use vstd::arithmetic::power2::{lemma2_to64, lemma_pow2_adds, lemma_pow2_pos, pow2};
use vstd::layout::{layout_of_primitives, size_of};
use vstd::prelude::*;

verus! {

/// The number of bits of a word of type `T`.
pub open spec fn bit_width<T>() -> nat {
    8 * size_of::<T>()
}

/// The value whose low `n` bits are set and whose other bits are clear.
pub open spec fn low_ones(n: nat) -> nat {
    (pow2(n) - 1) as nat
}

/// A fixed-width unsigned integer that can serve as a backing word.
///
/// Each operation is described over the value of the word as a natural
/// number. The shifts take their amount as `u8` and, like the operators
/// of the primitive types, only accept amounts below the width.
pub trait Uint: Copy + Sized {
    /// The value of the word.
    spec fn as_nat(self) -> nat;

    /// A word is one to sixteen bytes wide.
    proof fn lemma_width()
        ensures
            1 <= size_of::<Self>() <= 16,
    ;

    /// The value of a word is below two to the power of its width.
    proof fn lemma_fits(self)
        ensures
            self.as_nat() < pow2(bit_width::<Self>()),
    ;

    /// The smallest value, zero.
    fn min_value() -> (r: Self)
        ensures
            r.as_nat() == 0,
    ;

    /// The largest value, with every bit set.
    fn max_value() -> (r: Self)
        ensures
            r.as_nat() == low_ones(bit_width::<Self>()),
    ;

    /// Left shift by `n` bits; the bits shifted out at the top are lost.
    fn shl_by(self, n: u8) -> (r: Self)
        requires
            n < bit_width::<Self>(),
        ensures
            r.as_nat() == (self.as_nat() * pow2(n as nat)) % pow2(bit_width::<Self>()),
    ;

    /// Right shift by `n` bits.
    fn shr_by(self, n: u8) -> (r: Self)
        requires
            n < bit_width::<Self>(),
        ensures
            r.as_nat() == self.as_nat() / pow2(n as nat),
    ;

    /// Bitwise and. With the low `k` bits set in `rhs` and no other, it keeps
    /// the value modulo 2^k.
    fn bit_and(self, rhs: Self) -> (r: Self)
        ensures
            forall|k: nat|
                k <= bit_width::<Self>() && rhs.as_nat() == #[trigger] low_ones(k) ==> r.as_nat()
                    == self.as_nat() % pow2(k),
    ;

    /// Bitwise or. With `self` a multiple of 2^k and `rhs` below 2^k, the
    /// bits do not overlap and the result is the sum.
    fn bit_or(self, rhs: Self) -> (r: Self)
        ensures
            forall|k: nat|
                #![trigger pow2(k)]
                k <= bit_width::<Self>() && self.as_nat() % pow2(k) == 0 && rhs.as_nat() < pow2(
                    k,
                ) ==> r.as_nat() == self.as_nat() + rhs.as_nat(),
    ;
}

/// The width of `T` in bits.
pub fn bit_size<T: Uint>() -> (r: u8)
    ensures
        r as nat == bit_width::<T>(),
        8 <= r <= 128,
{
    proof {
        T::lemma_width();
    }
    (8 * core::mem::size_of::<T>()) as u8
}

/// The word whose low `n` bits are set and whose other bits are clear.
pub fn n_bit_mask<T: Uint>(n: u8) -> (r: T)
    requires
        n <= bit_width::<T>(),
    ensures
        r.as_nat() == low_ones(n as nat),
        n == 0 ==> r.as_nat() == 0,
        n == bit_width::<T>() ==> r.as_nat() == low_ones(bit_width::<T>()),
{
    let width = bit_size::<T>();
    if n == 0 {
        // All ones shifted right by the whole width; Rust refuses that shift.
        proof {
            lemma2_to64();
        }
        T::min_value()
    } else {
        let r = T::max_value().shr_by(width - n);
        proof {
            lemma_low_ones_shr(n as nat, (width - n) as nat);
            lemma_pow2_pos(width as nat);
        }
        r
    }
}

/// A left shift, zero-extended to 128 bits and cut back to `w` bits, is
/// multiplication by 2^n modulo 2^w.
proof fn lemma_narrow_shl(x: u128, n: u128, w: nat)
    requires
        n < w <= 128,
    ensures
        ((x << n) & ((pow2(w) - 1) as u128)) as nat == (x as nat * pow2(n as nat)) % pow2(w),
{
    lemma_low_ones_fit(w);
    lemma_u128_shl(x, n);
    lemma_u128_and_low_ones(x << n, (pow2(w) - 1) as u128, w);
    lemma_pow2_pos(w);
    lemma_pow2_pos((128 - w) as nat);
    lemma_pow2_adds(w, (128 - w) as nat);
    lemma_mod_mod(
        (x as nat * pow2(n as nat)) as int,
        pow2(w) as int,
        pow2((128 - w) as nat) as int,
    );
}

/// The facts of `Uint::bit_and` for words zero-extended to 128 bits.
proof fn lemma_narrow_and(x: u128, y: u128, w: nat)
    requires
        w <= 128,
    ensures
        forall|k: nat|
            k <= w && y as nat == #[trigger] low_ones(k) ==> (x & y) as nat == x as nat % pow2(k),
{
    assert forall|k: nat| k <= w && y as nat == #[trigger] low_ones(k) implies (x & y) as nat
        == x as nat % pow2(k) by {
        lemma_pow2_pos(k);
        lemma_u128_and_low_ones(x, y, k);
    }
}

/// The facts of `Uint::bit_or` for words zero-extended to 128 bits.
proof fn lemma_narrow_or(x: u128, y: u128, w: nat)
    requires
        w <= 128,
    ensures
        forall|k: nat|
            #![trigger pow2(k)]
            k <= w && x as nat % pow2(k) == 0 && y < pow2(k) ==> (x | y) as nat == x + y,
{
    assert forall|k: nat| #![trigger pow2(k)]
        k <= w && x as nat % pow2(k) == 0 && y < pow2(k) implies (x | y) as nat == x + y by {
        lemma_u128_or_disjoint(x, y, k);
    }
}

impl Uint for u8 {
    open spec fn as_nat(self) -> nat {
        self as nat
    }

    proof fn lemma_width() {
        broadcast use layout_of_primitives;

    }

    proof fn lemma_fits(self) {
        broadcast use layout_of_primitives;

        lemma2_to64();
    }

    fn min_value() -> (r: Self) {
        u8::MIN
    }

    fn max_value() -> (r: Self) {
        proof {
            broadcast use layout_of_primitives;

            lemma2_to64();
        }
        u8::MAX
    }

    fn shl_by(self, n: u8) -> (r: Self) {
        proof {
            broadcast use layout_of_primitives;

        }
        let r = self << n;
        proof {
            lemma2_to64();
            assert(r as u128 == ((self as u128) << (n as u128)) & 0xffu128) by (bit_vector)
                requires
                    r == self << n,
                    n < 8,
            ;
            lemma_narrow_shl(self as u128, n as u128, 8);
        }
        r
    }

    fn shr_by(self, n: u8) -> (r: Self) {
        proof {
            broadcast use layout_of_primitives;

        }
        let r = self >> n;
        proof {
            assert(r as u128 == (self as u128) >> (n as u128)) by (bit_vector)
                requires
                    r == self >> n,
                    n < 8,
            ;
            lemma_u128_shr(self as u128, n as u128);
        }
        r
    }

    fn bit_and(self, rhs: Self) -> (r: Self) {
        let r = self & rhs;
        proof {
            broadcast use layout_of_primitives;

            assert(r as u128 == (self as u128) & (rhs as u128)) by (bit_vector)
                requires
                    r == self & rhs,
            ;
            lemma_narrow_and(self as u128, rhs as u128, 8);
        }
        r
    }

    fn bit_or(self, rhs: Self) -> (r: Self) {
        let r = self | rhs;
        proof {
            broadcast use layout_of_primitives;

            assert(r as u128 == (self as u128) | (rhs as u128)) by (bit_vector)
                requires
                    r == self | rhs,
            ;
            lemma_narrow_or(self as u128, rhs as u128, 8);
        }
        r
    }
}

impl Uint for u16 {
    open spec fn as_nat(self) -> nat {
        self as nat
    }

    proof fn lemma_width() {
        broadcast use layout_of_primitives;

    }

    proof fn lemma_fits(self) {
        broadcast use layout_of_primitives;

        lemma2_to64();
    }

    fn min_value() -> (r: Self) {
        u16::MIN
    }

    fn max_value() -> (r: Self) {
        proof {
            broadcast use layout_of_primitives;

            lemma2_to64();
        }
        u16::MAX
    }

    fn shl_by(self, n: u8) -> (r: Self) {
        proof {
            broadcast use layout_of_primitives;

        }
        let r = self << n;
        proof {
            lemma2_to64();
            assert(r as u128 == ((self as u128) << (n as u128)) & 0xffffu128) by (bit_vector)
                requires
                    r == self << n,
                    n < 16,
            ;
            lemma_narrow_shl(self as u128, n as u128, 16);
        }
        r
    }

    fn shr_by(self, n: u8) -> (r: Self) {
        proof {
            broadcast use layout_of_primitives;

        }
        let r = self >> n;
        proof {
            assert(r as u128 == (self as u128) >> (n as u128)) by (bit_vector)
                requires
                    r == self >> n,
                    n < 16,
            ;
            lemma_u128_shr(self as u128, n as u128);
        }
        r
    }

    fn bit_and(self, rhs: Self) -> (r: Self) {
        let r = self & rhs;
        proof {
            broadcast use layout_of_primitives;

            assert(r as u128 == (self as u128) & (rhs as u128)) by (bit_vector)
                requires
                    r == self & rhs,
            ;
            lemma_narrow_and(self as u128, rhs as u128, 16);
        }
        r
    }

    fn bit_or(self, rhs: Self) -> (r: Self) {
        let r = self | rhs;
        proof {
            broadcast use layout_of_primitives;

            assert(r as u128 == (self as u128) | (rhs as u128)) by (bit_vector)
                requires
                    r == self | rhs,
            ;
            lemma_narrow_or(self as u128, rhs as u128, 16);
        }
        r
    }
}

impl Uint for u32 {
    open spec fn as_nat(self) -> nat {
        self as nat
    }

    proof fn lemma_width() {
        broadcast use layout_of_primitives;

    }

    proof fn lemma_fits(self) {
        broadcast use layout_of_primitives;

        lemma2_to64();
    }

    fn min_value() -> (r: Self) {
        u32::MIN
    }

    fn max_value() -> (r: Self) {
        proof {
            broadcast use layout_of_primitives;

            lemma2_to64();
        }
        u32::MAX
    }

    fn shl_by(self, n: u8) -> (r: Self) {
        proof {
            broadcast use layout_of_primitives;

        }
        let r = self << n;
        proof {
            lemma2_to64();
            assert(r as u128 == ((self as u128) << (n as u128)) & 0xffff_ffffu128) by (bit_vector)
                requires
                    r == self << n,
                    n < 32,
            ;
            lemma_narrow_shl(self as u128, n as u128, 32);
        }
        r
    }

    fn shr_by(self, n: u8) -> (r: Self) {
        proof {
            broadcast use layout_of_primitives;

        }
        let r = self >> n;
        proof {
            assert(r as u128 == (self as u128) >> (n as u128)) by (bit_vector)
                requires
                    r == self >> n,
                    n < 32,
            ;
            lemma_u128_shr(self as u128, n as u128);
        }
        r
    }

    fn bit_and(self, rhs: Self) -> (r: Self) {
        let r = self & rhs;
        proof {
            broadcast use layout_of_primitives;

            assert(r as u128 == (self as u128) & (rhs as u128)) by (bit_vector)
                requires
                    r == self & rhs,
            ;
            lemma_narrow_and(self as u128, rhs as u128, 32);
        }
        r
    }

    fn bit_or(self, rhs: Self) -> (r: Self) {
        let r = self | rhs;
        proof {
            broadcast use layout_of_primitives;

            assert(r as u128 == (self as u128) | (rhs as u128)) by (bit_vector)
                requires
                    r == self | rhs,
            ;
            lemma_narrow_or(self as u128, rhs as u128, 32);
        }
        r
    }
}

impl Uint for u64 {
    open spec fn as_nat(self) -> nat {
        self as nat
    }

    proof fn lemma_width() {
        broadcast use layout_of_primitives;

    }

    proof fn lemma_fits(self) {
        broadcast use layout_of_primitives;

        lemma2_to64();
    }

    fn min_value() -> (r: Self) {
        u64::MIN
    }

    fn max_value() -> (r: Self) {
        proof {
            broadcast use layout_of_primitives;

            lemma2_to64();
        }
        u64::MAX
    }

    fn shl_by(self, n: u8) -> (r: Self) {
        proof {
            broadcast use layout_of_primitives;

        }
        let r = self << n;
        proof {
            lemma2_to64();
            assert(r as u128 == ((self as u128) << (n as u128)) & 0xffff_ffff_ffff_ffffu128)
                by (bit_vector)
                requires
                    r == self << n,
                    n < 64,
            ;
            lemma_narrow_shl(self as u128, n as u128, 64);
        }
        r
    }

    fn shr_by(self, n: u8) -> (r: Self) {
        proof {
            broadcast use layout_of_primitives;

        }
        let r = self >> n;
        proof {
            assert(r as u128 == (self as u128) >> (n as u128)) by (bit_vector)
                requires
                    r == self >> n,
                    n < 64,
            ;
            lemma_u128_shr(self as u128, n as u128);
        }
        r
    }

    fn bit_and(self, rhs: Self) -> (r: Self) {
        let r = self & rhs;
        proof {
            broadcast use layout_of_primitives;

            assert(r as u128 == (self as u128) & (rhs as u128)) by (bit_vector)
                requires
                    r == self & rhs,
            ;
            lemma_narrow_and(self as u128, rhs as u128, 64);
        }
        r
    }

    fn bit_or(self, rhs: Self) -> (r: Self) {
        let r = self | rhs;
        proof {
            broadcast use layout_of_primitives;

            assert(r as u128 == (self as u128) | (rhs as u128)) by (bit_vector)
                requires
                    r == self | rhs,
            ;
            lemma_narrow_or(self as u128, rhs as u128, 64);
        }
        r
    }
}

impl Uint for u128 {
    open spec fn as_nat(self) -> nat {
        self as nat
    }

    proof fn lemma_width() {
        broadcast use layout_of_primitives;

    }

    proof fn lemma_fits(self) {
        broadcast use layout_of_primitives;

        lemma_pow2_128();
    }

    fn min_value() -> (r: Self) {
        u128::MIN
    }

    fn max_value() -> (r: Self) {
        proof {
            broadcast use layout_of_primitives;

            lemma_pow2_128();
        }
        u128::MAX
    }

    fn shl_by(self, n: u8) -> (r: Self) {
        proof {
            broadcast use layout_of_primitives;

        }
        let r = self << n;
        proof {
            assert(r == self << (n as u128)) by (bit_vector)
                requires
                    r == self << n,
                    n < 128,
            ;
            lemma_u128_shl(self, n as u128);
        }
        r
    }

    fn shr_by(self, n: u8) -> (r: Self) {
        proof {
            broadcast use layout_of_primitives;

        }
        let r = self >> n;
        proof {
            assert(r == self >> (n as u128)) by (bit_vector)
                requires
                    r == self >> n,
                    n < 128,
            ;
            lemma_u128_shr(self, n as u128);
        }
        r
    }

    fn bit_and(self, rhs: Self) -> (r: Self) {
        proof {
            broadcast use layout_of_primitives;

            lemma_narrow_and(self, rhs, 128);
        }
        self & rhs
    }

    fn bit_or(self, rhs: Self) -> (r: Self) {
        proof {
            broadcast use layout_of_primitives;

            lemma_narrow_or(self, rhs, 128);
        }
        self | rhs
    }
}

} // verus!
