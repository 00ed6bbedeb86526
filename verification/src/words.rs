use vstd::prelude::*;
use vstd::arithmetic::power2::{lemma2_to64, lemma_pow2_adds, pow2};
use crate::field::Field;

verus! {

/// Whether bit `j` of the word is set.
pub open spec fn bit_of(w: u32, j: u32) -> bool {
    (w >> j) & 1 == 1
}

/// The field element that stands for a bit.
pub open spec fn bit_value<F: Field>(b: bool) -> F {
    if b {
        F::one()
    } else {
        F::zero()
    }
}

/// The column of the bits of the words, the lowest bit of each word
/// first: row `32 * i + j` holds bit `j` of word `i`.
pub open spec fn word_bits<F: Field>(words: Seq<u32>) -> Seq<F> {
    Seq::new(32 * words.len(), |k: int| bit_value(bit_of(words[k / 32], (k % 32) as u32)))
}

/// The word whose lowest `j` bits are those that the column holds from
/// row `base` on; a row holds a set bit where it holds one.
pub open spec fn pack_bits<F: Field>(column: Seq<F>, base: int, j: u32) -> u32
    decreases j,
{
    if j == 0 {
        0
    } else {
        let lower = pack_bits(column, base, (j - 1) as u32);
        if column[base + j - 1] == F::one() {
            lower | (1u32 << ((j - 1) as u32))
        } else {
            lower
        }
    }
}

/// The words that the column of bits holds, 32 rows to the word.
pub open spec fn bit_words<F: Field>(column: Seq<F>) -> Seq<u32> {
    Seq::new((column.len() / 32) as nat, |i: int| pack_bits(column, 32 * i, 32))
}

/// A hypercube of at least five variables has a multiple of 32 vertices.
pub proof fn lemma_pow2_words(n: nat)
    requires
        n >= 5,
    ensures
        pow2(n) == 32 * pow2((n - 5) as nat),
{
    lemma2_to64();
    lemma_pow2_adds(5, (n - 5) as nat);
}

/// Spreads the bits of the words over the rows of a column.
pub fn bits_of_words<F: Field>(words: &Vec<u32>) -> (column: Vec<F>)
    ensures
        column@ == word_bits::<F>(words@),
{
    let mut column: Vec<F> = Vec::new();
    let mut i: usize = 0;
    while i < words.len()
        invariant
            i <= words@.len(),
            column@ == word_bits::<F>(words@).take(32 * i),
        decreases words@.len() - i,
    {
        let w = words[i];
        let mut j: u32 = 0;
        while j < 32
            invariant
                j <= 32,
                i < words@.len(),
                w == words@[i as int],
                column@ == word_bits::<F>(words@).take(32 * i + j),
            decreases 32 - j,
        {
            let bit = if (w >> j) & 1 == 1 {
                F::one_value()
            } else {
                F::zero_value()
            };
            column.push(bit);
            proof {
                let k = 32 * i + j;
                assert(k / 32 == i && k % 32 == j);
                assert(column@ =~= word_bits::<F>(words@).take(k + 1));
            }
            j += 1;
        }
        i += 1;
    }
    assert(word_bits::<F>(words@).take(32 * words@.len() as int) =~= word_bits::<F>(words@));
    column
}

/// Gathers the rows of a column of bits into words, 32 rows to the word.
pub fn words_of_bits<F: Field>(column: &Vec<F>) -> (words: Vec<u32>)
    ensures
        words@ == bit_words(column@),
{
    let total = column.len();
    let n = total / 32;
    let mut words: Vec<u32> = Vec::new();
    let mut i: usize = 0;
    while i < n
        invariant
            i <= n,
            total == column@.len(),
            n == column@.len() / 32,
            words@ == bit_words(column@).take(i as int),
        decreases n - i,
    {
        let mut w: u32 = 0;
        let mut j: u32 = 0;
        while j < 32
            invariant
                j <= 32,
                i < n,
                total == column@.len(),
                n == column@.len() / 32,
                w == pack_bits(column@, 32 * i, j),
            decreases 32 - j,
        {
            let one = F::one_value();
            if column[32 * i + j as usize].is_equal(&one) {
                w = w | (1u32 << j);
            }
            j += 1;
        }
        words.push(w);
        assert(words@ =~= bit_words(column@).take(i + 1));
        i += 1;
    }
    assert(bit_words(column@).take(n as int) =~= bit_words(column@));
    words
}

} // verus!
