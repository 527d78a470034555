//! The layout of fields in a word, as functions on natural numbers.
use vstd::arithmetic::div_mod::{
    lemma_div_denominator, lemma_fundamental_div_mod_converse, lemma_mod_mod,
    lemma_mod_multiples_vanish, lemma_mod_twice, lemma_small_mod,
};
use vstd::arithmetic::power2::{
    lemma2_to64, lemma_pow2_adds, lemma_pow2_pos, lemma_pow2_strictly_increases, pow2,
};
use vstd::prelude::*;

verus! {

/// The word that results from shifting `word` up by `count` bits and placing
/// the low `count` bits of `value` below it, in a word of `width` bits.
pub open spec fn push_field(width: nat, word: nat, count: nat, value: nat) -> nat {
    (word * pow2(count) + value % pow2(count)) % pow2(width)
}

/// The `count`-bit field whose top lies `pos` bits below the top of a word of
/// `width` bits.
pub open spec fn field_at(width: nat, word: nat, pos: nat, count: nat) -> nat {
    (word / pow2((width - pos - count) as nat)) % pow2(count)
}

/// The word left by writing the first `n` of `fields`, each a bit count and a
/// value, in order into an empty word of `width` bits.
pub open spec fn packed(width: nat, fields: Seq<(nat, nat)>, n: int) -> nat
    decreases n,
{
    if n <= 0 {
        0
    } else {
        push_field(width, packed(width, fields, n - 1), fields[n - 1].0, fields[n - 1].1)
    }
}

/// The number of bits that the first `n` of `fields` take.
pub open spec fn bits_before(fields: Seq<(nat, nat)>, n: int) -> nat
    decreases n,
{
    if n <= 0 {
        0
    } else {
        bits_before(fields, n - 1) + fields[n - 1].0
    }
}

proof fn lemma_bits_before_monotonic(fields: Seq<(nat, nat)>, k: int, n: int)
    requires
        0 <= k <= n,
    ensures
        bits_before(fields, k) <= bits_before(fields, n),
    decreases n - k,
{
    if k < n {
        lemma_bits_before_monotonic(fields, k, n - 1);
    }
}

proof fn lemma_pow2_monotonic(a: nat, b: nat)
    requires
        a <= b,
    ensures
        pow2(a) <= pow2(b),
{
    if a < b {
        lemma_pow2_strictly_increases(a, b);
    }
}

/// While the fields fit the word, nothing is lost at the top: the word after
/// `n` fields is below 2^(their bits), and the last push is a plain shift and add.
proof fn lemma_packed_fits(width: nat, fields: Seq<(nat, nat)>, n: int)
    requires
        0 <= n <= fields.len(),
        bits_before(fields, n) <= width,
    ensures
        packed(width, fields, n) < pow2(bits_before(fields, n)),
        n > 0 ==> packed(width, fields, n) == packed(width, fields, n - 1) * pow2(fields[n - 1].0)
            + fields[n - 1].1 % pow2(fields[n - 1].0),
    decreases n,
{
    lemma_pow2_pos(bits_before(fields, n));
    if n > 0 {
        let prev = packed(width, fields, n - 1);
        let a = bits_before(fields, n - 1);
        let c = fields[n - 1].0;
        let m = fields[n - 1].1 % pow2(c);
        lemma_packed_fits(width, fields, n - 1);
        lemma_pow2_pos(c);
        lemma_pow2_adds(a, c);
        assert(prev * pow2(c) + m < pow2(a) * pow2(c)) by (nonlinear_arith)
            requires
                prev < pow2(a),
                m < pow2(c),
        ;
        lemma_pow2_monotonic(bits_before(fields, n), width);
        lemma_small_mod(prev * pow2(c) + m, pow2(width));
    }
}

/// The top bits of the word after `n` fields are the word after the first
/// `k` of them.
proof fn lemma_packed_prefix(width: nat, fields: Seq<(nat, nat)>, k: int, n: int)
    requires
        0 <= k <= n <= fields.len(),
        bits_before(fields, n) <= width,
    ensures
        packed(width, fields, n) / (pow2(
            (bits_before(fields, n) - bits_before(fields, k)) as nat,
        )) == packed(width, fields, k),
    decreases n - k,
{
    lemma_bits_before_monotonic(fields, k, n);
    if k == n {
        lemma2_to64();
        assert(pow2((bits_before(fields, n) - bits_before(fields, k)) as nat) == 1);
    } else {
        let prev = packed(width, fields, n - 1);
        let c = fields[n - 1].0;
        let m = fields[n - 1].1 % pow2(c);
        let d: nat = (bits_before(fields, n - 1) - bits_before(fields, k)) as nat;
        lemma_bits_before_monotonic(fields, n - 1, n);
        lemma_bits_before_monotonic(fields, k, n - 1);
        lemma_packed_fits(width, fields, n);
        lemma_packed_prefix(width, fields, k, n - 1);
        lemma_pow2_pos(c);
        lemma_pow2_pos(d);
        lemma_fundamental_div_mod_converse(
            (prev * pow2(c) + m) as int,
            pow2(c) as int,
            prev as int,
            m as int,
        );
        assert((c + d) as nat == (bits_before(fields, n) - bits_before(fields, k)) as nat);
        lemma_pow2_adds(c, d);
        lemma_div_denominator(packed(width, fields, n) as int, pow2(c) as int, pow2(d) as int);
    }
}

/// Fields come out in the order they went in, first field highest: when
/// `fields` fill the word exactly, its top `bits_before(fields, k)` bits are
/// the word that writing only the first `k` of them gives.
pub proof fn lemma_first_written_highest(width: nat, fields: Seq<(nat, nat)>, k: int)
    requires
        0 <= k <= fields.len(),
        bits_before(fields, fields.len() as int) == width,
    ensures
        packed(width, fields, fields.len() as int) / (pow2(
            (width - bits_before(fields, k)) as nat,
        )) == packed(width, fields, k),
{
    lemma_packed_prefix(width, fields, k, fields.len() as int);
}

/// Reading back the fields of a word that they fill exactly gives each
/// value cut to its bit count; a value that fits its count comes back as it
/// went in.
pub proof fn lemma_round_trip(width: nat, fields: Seq<(nat, nat)>, i: int)
    requires
        0 <= i < fields.len(),
        bits_before(fields, fields.len() as int) == width,
    ensures
        field_at(
            width,
            packed(width, fields, fields.len() as int),
            bits_before(fields, i),
            fields[i].0,
        ) == fields[i].1 % pow2(fields[i].0),
        fields[i].1 < pow2(fields[i].0) ==> field_at(
            width,
            packed(width, fields, fields.len() as int),
            bits_before(fields, i),
            fields[i].0,
        ) == fields[i].1,
{
    let n = fields.len() as int;
    let c = fields[i].0;
    let m = fields[i].1 % pow2(c);
    lemma_bits_before_monotonic(fields, i + 1, n);
    lemma_packed_prefix(width, fields, i + 1, n);
    lemma_packed_fits(width, fields, i + 1);
    lemma_pow2_pos(c);
    lemma_fundamental_div_mod_converse(
        packed(width, fields, i + 1) as int,
        pow2(c) as int,
        packed(width, fields, i) as int,
        m as int,
    );
    if fields[i].1 < pow2(c) {
        lemma_small_mod(fields[i].1, pow2(c));
    }
}

/// A write keeps only the low `count` bits of its value: the value and the
/// value cut to `count` bits give the same word, and the low `count` bits of
/// that word are the cut value.
pub proof fn lemma_write_masks(width: nat, word: nat, count: nat, value: nat)
    requires
        count <= width,
    ensures
        push_field(width, word, count, value) == push_field(
            width,
            word,
            count,
            value % pow2(count),
        ),
        push_field(width, word, count, value) % pow2(count) == value % pow2(count),
{
    let c = pow2(count);
    let rest: nat = (width - count) as nat;
    lemma_pow2_pos(count);
    lemma_pow2_pos(rest);
    lemma_pow2_adds(count, rest);
    lemma_mod_twice(value as int, c as int);
    lemma_mod_mod((word * c + value % c) as int, c as int, pow2(rest) as int);
    lemma_mod_multiples_vanish(word as int, (value % c) as int, c as int);
    lemma_small_mod(value % c, c);
    assert(word * c == c * word) by (nonlinear_arith);
}

} // verus!
