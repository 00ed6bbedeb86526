use vstd::prelude::*;
use crate::arithmetic_traits::{InvertOrZero, Square};

verus! {

/// A finite field: the scalars of evaluation points, claimed values and
/// witness columns.
///
/// The operations are described by spec functions on the values themselves;
/// the proof functions are the field laws, which every implementation proves.
pub trait Field: Copy + Send + Sync + Square + InvertOrZero {
    /// The additive identity.
    spec fn zero() -> Self;

    /// The multiplicative identity.
    spec fn one() -> Self;

    spec fn add_spec(self, rhs: Self) -> Self;

    spec fn sub_spec(self, rhs: Self) -> Self;

    spec fn mul_spec(self, rhs: Self) -> Self;

    fn zero_value() -> (r: Self)
        ensures
            r == Self::zero(),
    ;

    fn one_value() -> (r: Self)
        ensures
            r == Self::one(),
    ;

    fn add(self, rhs: Self) -> (r: Self)
        ensures
            r == self.add_spec(rhs),
    ;

    fn sub(self, rhs: Self) -> (r: Self)
        ensures
            r == self.sub_spec(rhs),
    ;

    fn mul(self, rhs: Self) -> (r: Self)
        ensures
            r == self.mul_spec(rhs),
    ;

    /// The bytes that stand for the element in a transcript.
    spec fn to_bytes_spec(self) -> Seq<u8>;

    /// Appends the bytes of the element to `out`.
    fn write_bytes(&self, out: &mut Vec<u8>)
        ensures
            final(out)@ == old(out)@ + self.to_bytes_spec(),
    ;

    /// Decides equality of two field elements.
    fn is_equal(&self, rhs: &Self) -> (b: bool)
        ensures
            b == (*self == *rhs),
    ;

    /// Addition is commutative and associative, zero is its identity, and
    /// subtraction undoes it.
    proof fn lemma_add_laws(a: Self, b: Self, c: Self)
        ensures
            a.add_spec(b) == b.add_spec(a),
            a.add_spec(b).add_spec(c) == a.add_spec(b.add_spec(c)),
            a.add_spec(Self::zero()) == a,
            a.sub_spec(b).add_spec(b) == a,
            a.add_spec(b).sub_spec(b) == a,
    ;

    /// Multiplication is commutative and associative, one is its identity,
    /// and it distributes over addition.
    proof fn lemma_mul_laws(a: Self, b: Self, c: Self)
        ensures
            a.mul_spec(b) == b.mul_spec(a),
            a.mul_spec(b).mul_spec(c) == a.mul_spec(b.mul_spec(c)),
            a.mul_spec(Self::one()) == a,
            a.mul_spec(Self::zero()) == Self::zero(),
            a.mul_spec(b.add_spec(c)) == a.mul_spec(b).add_spec(a.mul_spec(c)),
    ;

    /// Every nonzero element has a multiplicative inverse, which
    /// `invert_or_zero` computes; zero is mapped to zero.
    proof fn lemma_inverse(a: Self)
        ensures
            Self::zero() != Self::one(),
            a != Self::zero() ==> a.mul_spec(a.invert_or_zero_spec()) == Self::one(),
            Self::zero().invert_or_zero_spec() == Self::zero(),
    ;

    /// Different elements have different bytes.
    proof fn lemma_bytes_injective(a: Self, b: Self)
        ensures
            a.to_bytes_spec() == b.to_bytes_spec() ==> a == b,
    ;

    /// Squaring is multiplication by itself.
    proof fn lemma_square(a: Self)
        ensures
            a.square_spec() == a.mul_spec(a),
    ;
}

/// The multiplicative inverse of `a`, where it exists.
pub open spec fn invert_spec<F: Field>(a: F) -> Option<F> {
    if a == F::zero() {
        None
    } else {
        Some(a.invert_or_zero_spec())
    }
}

/// Computes the multiplicative inverse of `a`; there is none exactly when
/// `a` is zero.
pub fn invert<F: Field>(a: F) -> (r: Option<F>)
    ensures
        r == invert_spec(a),
{
    let z = F::zero_value();
    if a.is_equal(&z) {
        None
    } else {
        Some(a.invert_or_zero())
    }
}

/// Whether `a` is the additive identity.
pub fn is_zero<F: Field>(a: &F) -> (b: bool)
    ensures
        b == (*a == F::zero()),
{
    let z = F::zero_value();
    a.is_equal(&z)
}

} // verus!
