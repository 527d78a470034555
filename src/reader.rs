//! Taking fields back out of a word, first field first.
use crate::fields::field_at;
use crate::uint::{bit_size, bit_width, n_bit_mask, Uint};
use vstd::arithmetic::div_mod::lemma_basic_div;
use vstd::arithmetic::power2::pow2;
use vstd::prelude::*;

verus! {

/// Reads fields from a backing word of type `T`, from the most significant
/// end down.
pub struct Reader<T: Uint> {
    bit_vec: T,
    pos: u8,
}

impl<T: Uint> Reader<T> {
    /// The value of the word being read.
    pub closed spec fn word(&self) -> nat {
        self.bit_vec.as_nat()
    }

    /// The number of bits read so far, counted from the top of the word.
    pub closed spec fn pos(&self) -> nat {
        self.pos as nat
    }

    /// A reader at the top of `bit_vec`.
    pub fn new(bit_vec: T) -> (r: Self)
        ensures
            r.word() == bit_vec.as_nat(),
            r.pos() == 0,
    {
        Reader { bit_vec, pos: 0 }
    }

    /// Returns the next `count` bits below those already read, and moves past
    /// them.
    pub fn read_next(&mut self, count: u8) -> (r: T)
        requires
            old(self).pos() + count <= bit_width::<T>(),
        ensures
            r.as_nat() == field_at(
                bit_width::<T>(),
                old(self).word(),
                old(self).pos(),
                count as nat,
            ),
            final(self).word() == old(self).word(),
            final(self).pos() == old(self).pos() + count,
    {
        let width = bit_size::<T>();
        let shift = width - count - self.pos;
        let shifted = if shift < width {
            self.bit_vec.shr_by(shift)
        } else {
            // Nothing read yet and nothing asked for: a shift by the whole
            // width, which Rust refuses, would leave zero.
            proof {
                self.bit_vec.lemma_fits();
                lemma_basic_div(self.bit_vec.as_nat() as int, pow2(width as nat) as int);
            }
            T::min_value()
        };
        let bits = shifted.bit_and(n_bit_mask(count));
        self.pos = self.pos + count;
        bits
    }
}

} // verus!
