//! Building a word field by field.
use crate::fields::push_field;
use crate::uint::{bit_size, bit_width, n_bit_mask, Uint};
use vstd::arithmetic::div_mod::{lemma_mod_multiples_basic, lemma_truncate_middle};
use vstd::arithmetic::power2::{lemma_pow2_adds, lemma_pow2_pos, pow2};
use vstd::prelude::*;
use vstd::std_specs::convert::IntoSpec;

verus! {

/// Accumulates fields into a backing word of type `T`, first field highest.
pub struct Writer<T: Uint>(T);

impl<T: Uint> Writer<T> {
    /// The value of the word built so far.
    pub closed spec fn word(&self) -> nat {
        self.0.as_nat()
    }

    /// Shifts the word up by `count` bits and stores the low `count` bits of
    /// `src` below it. Bits shifted out at the top are lost.
    ///
    /// `src` is first converted to `T` with `Into`; the word is stated for
    /// conversions with a known result, such as widening one unsigned
    /// integer type to a wider one.
    pub fn write<B: Into<T>>(self, count: u8, src: B) -> (r: Self)
        requires
            count <= bit_width::<T>(),
        ensures
            <B as IntoSpec<T>>::obeys_into_spec() ==> r.word() == push_field(
                bit_width::<T>(),
                self.word(),
                count as nat,
                <B as IntoSpec<T>>::into_spec(src).as_nat(),
            ),
    {
        self.write_word(count, src.into())
    }

    /// Shifts the word up by `count` bits and stores the low `count` bits of
    /// `value` below it, as `write` does for a value already of type `T`.
    pub fn write_word(self, count: u8, value: T) -> (r: Self)
        requires
            count <= bit_width::<T>(),
        ensures
            r.word() == push_field(bit_width::<T>(), self.word(), count as nat, value.as_nat()),
    {
        let width = bit_size::<T>();
        let shifted = if count < width {
            self.0.shl_by(count)
        } else {
            // Shifting by the whole width empties the word; Rust refuses that shift.
            T::min_value()
        };
        let low = value.bit_and(n_bit_mask(count));
        let r = shifted.bit_or(low);
        proof {
            lemma_push_field_parts(width as nat, self.word(), count as nat, value.as_nat());
            if count == width {
                lemma_pow2_pos(count as nat);
                lemma_mod_multiples_basic(self.word() as int, pow2(count as nat) as int);
            }
        }
        Writer(r)
    }

    /// The word built so far.
    pub fn finish(self) -> (r: T)
        ensures
            r.as_nat() == self.word(),
    {
        self.0
    }
}

impl<T: Uint> Default for Writer<T> {
    /// A writer with nothing written yet: the word is zero.
    fn default() -> (r: Self)
        ensures
            r.word() == 0,
    {
        Writer(T::min_value())
    }
}

/// The shifted word is a multiple of 2^count below 2^width with room for the
/// field beside it, and their sum is the pushed word.
proof fn lemma_push_field_parts(width: nat, word: nat, count: nat, value: nat)
    requires
        count <= width,
    ensures
        ((word * pow2(count)) % pow2(width)) % pow2(count) == 0,
        value % pow2(count) < pow2(count),
        ((word * pow2(count)) % pow2(width)) + value % pow2(count) == push_field(
            width,
            word,
            count,
            value,
        ),
{
    let rest: nat = (width - count) as nat;
    let c = pow2(count);
    let q = pow2(rest);
    let m = value % c;
    lemma_pow2_pos(count);
    lemma_pow2_pos(rest);
    lemma_pow2_adds(count, rest);
    lemma_truncate_middle(word as int, c as int, q as int);
    assert(word * c == c * word) by (nonlinear_arith);
    let t = word % q;
    assert((c * t) % c == 0) by (nonlinear_arith)
        requires
            c > 0,
    ;
    assert(c * t + m < c * q) by (nonlinear_arith)
        requires
            t < q,
            m < c,
    ;
    assert((word * c + m) % (c * q) == c * t + m) by (nonlinear_arith)
        requires
            (word * c) % (c * q) == c * t,
            t < q,
            m < c,
            c > 0,
            q > 0,
            c * t + m < c * q,
    ;
}

} // verus!
