use vstd::prelude::*;
use crate::arithmetic_traits::{
    Broadcast, FieldAffineTransformation, InvertOrZero, MulAlpha, PackedTransformationFactory,
    Square, TaggedInvertOrZero, TaggedMul, TaggedMulAlpha, TaggedPackedTransformationFactory,
    TaggedSquare, Transformation,
};
use crate::field::Field;

verus! {

/// The field with two elements.
#[derive(Clone, Copy, Debug, PartialEq, Eq, Structural)]
pub struct BinaryField1b {
    pub bit: bool,
}

/// The field with four elements, built over [`BinaryField1b`] by adjoining a
/// root `X` of `X^2 + X + 1`. The element is `c0 + c1 * X`.
#[derive(Clone, Copy, Debug, PartialEq, Eq, Structural)]
pub struct BinaryField2b {
    pub c0: bool,
    pub c1: bool,
}

/// Multiplies coefficient by coefficient and reduces.
#[derive(Clone, Copy, Debug)]
pub struct SchoolbookStrategy;

/// Multiplies with three subfield products instead of four.
#[derive(Clone, Copy, Debug)]
pub struct KaratsubaStrategy;

/// Two scalars held side by side.
#[derive(Clone, Copy, Debug)]
pub struct PackedPair<Scalar> {
    pub lo: Scalar,
    pub hi: Scalar,
}

pub open spec fn xor(a: bool, b: bool) -> bool {
    a != b
}

/// The product of `a0 + a1 * X` and `b0 + b1 * X` modulo `X^2 + X + 1`.
pub open spec fn product_2b(a: BinaryField2b, b: BinaryField2b) -> BinaryField2b {
    BinaryField2b {
        c0: xor(a.c0 && b.c0, a.c1 && b.c1),
        c1: xor(xor(a.c0 && b.c1, a.c1 && b.c0), a.c1 && b.c1),
    }
}

/// The generator `X` of the four-element field over the two-element field.
pub open spec fn alpha_2b() -> BinaryField2b {
    BinaryField2b { c0: false, c1: true }
}

impl BinaryField1b {
    /// The element whose numeric value is `v` modulo 2.
    pub fn new(v: u8) -> (r: Self)
        ensures
            r.bit == (v % 2 == 1),
    {
        BinaryField1b { bit: v % 2 == 1 }
    }

    /// The numeric value of the element, 0 or 1.
    pub fn val(self) -> (v: u8)
        ensures
            v == (if self.bit { 1u8 } else { 0u8 }),
    {
        if self.bit { 1 } else { 0 }
    }
}

impl Square for BinaryField1b {
    open spec fn square_spec(self) -> Self {
        self
    }

    fn square(self) -> (r: Self) {
        self
    }
}

impl InvertOrZero for BinaryField1b {
    open spec fn invert_or_zero_spec(self) -> Self {
        self
    }

    fn invert_or_zero(self) -> (r: Self) {
        self
    }
}

impl MulAlpha for BinaryField1b {
    open spec fn mul_alpha_spec(self) -> Self {
        self
    }

    fn mul_alpha(self) -> (r: Self) {
        self
    }
}

impl Field for BinaryField1b {
    open spec fn zero() -> Self {
        BinaryField1b { bit: false }
    }

    open spec fn one() -> Self {
        BinaryField1b { bit: true }
    }

    open spec fn add_spec(self, rhs: Self) -> Self {
        BinaryField1b { bit: xor(self.bit, rhs.bit) }
    }

    open spec fn sub_spec(self, rhs: Self) -> Self {
        BinaryField1b { bit: xor(self.bit, rhs.bit) }
    }

    open spec fn mul_spec(self, rhs: Self) -> Self {
        BinaryField1b { bit: self.bit && rhs.bit }
    }

    fn zero_value() -> (r: Self) {
        BinaryField1b { bit: false }
    }

    fn one_value() -> (r: Self) {
        BinaryField1b { bit: true }
    }

    fn add(self, rhs: Self) -> (r: Self) {
        BinaryField1b { bit: self.bit != rhs.bit }
    }

    fn sub(self, rhs: Self) -> (r: Self) {
        BinaryField1b { bit: self.bit != rhs.bit }
    }

    fn mul(self, rhs: Self) -> (r: Self) {
        BinaryField1b { bit: self.bit && rhs.bit }
    }

    fn is_equal(&self, rhs: &Self) -> (b: bool) {
        self.bit == rhs.bit
    }

    open spec fn to_bytes_spec(self) -> Seq<u8> {
        seq![if self.bit { 1u8 } else { 0u8 }]
    }

    fn write_bytes(&self, out: &mut Vec<u8>) {
        out.push(self.val());
    }

    proof fn lemma_bytes_injective(a: Self, b: Self) {
        if a.to_bytes_spec() == b.to_bytes_spec() {
            assert(a.to_bytes_spec()[0] == b.to_bytes_spec()[0]);
        }
    }

    proof fn lemma_add_laws(a: Self, b: Self, c: Self) {
    }

    proof fn lemma_mul_laws(a: Self, b: Self, c: Self) {
    }

    proof fn lemma_inverse(a: Self) {
    }

    proof fn lemma_square(a: Self) {
    }
}

impl BinaryField2b {
    /// The element whose numeric value is `v` modulo 4: bit 0 is the
    /// constant coefficient, bit 1 the coefficient of `X`.
    pub fn new(v: u8) -> (r: Self)
        ensures
            r.c0 == (v % 2 == 1),
            r.c1 == ((v / 2) % 2 == 1),
    {
        BinaryField2b { c0: v % 2 == 1, c1: (v / 2) % 2 == 1 }
    }

    /// The numeric value of the element, from 0 to 3.
    pub fn val(self) -> (v: u8)
        ensures
            v == (if self.c0 { 1int } else { 0int }) + (if self.c1 { 2int } else { 0int }),
    {
        let lo: u8 = if self.c0 { 1 } else { 0 };
        let hi: u8 = if self.c1 { 2 } else { 0 };
        lo + hi
    }
}

impl Square for BinaryField2b {
    open spec fn square_spec(self) -> Self {
        product_2b(self, self)
    }

    fn square(self) -> (r: Self) {
        BinaryField2b { c0: self.c0 != self.c1, c1: self.c1 }
    }
}

impl InvertOrZero for BinaryField2b {
    /// In a field of four elements the cube of a nonzero element is one, so
    /// the inverse is the square.
    open spec fn invert_or_zero_spec(self) -> Self {
        product_2b(self, self)
    }

    fn invert_or_zero(self) -> (r: Self) {
        Square::square(self)
    }
}

impl MulAlpha for BinaryField2b {
    open spec fn mul_alpha_spec(self) -> Self {
        product_2b(self, alpha_2b())
    }

    fn mul_alpha(self) -> (r: Self) {
        BinaryField2b { c0: self.c1, c1: self.c0 != self.c1 }
    }
}

impl Field for BinaryField2b {
    open spec fn zero() -> Self {
        BinaryField2b { c0: false, c1: false }
    }

    open spec fn one() -> Self {
        BinaryField2b { c0: true, c1: false }
    }

    open spec fn add_spec(self, rhs: Self) -> Self {
        BinaryField2b { c0: xor(self.c0, rhs.c0), c1: xor(self.c1, rhs.c1) }
    }

    open spec fn sub_spec(self, rhs: Self) -> Self {
        self.add_spec(rhs)
    }

    open spec fn mul_spec(self, rhs: Self) -> Self {
        product_2b(self, rhs)
    }

    fn zero_value() -> (r: Self) {
        BinaryField2b { c0: false, c1: false }
    }

    fn one_value() -> (r: Self) {
        BinaryField2b { c0: true, c1: false }
    }

    fn add(self, rhs: Self) -> (r: Self) {
        BinaryField2b { c0: self.c0 != rhs.c0, c1: self.c1 != rhs.c1 }
    }

    fn sub(self, rhs: Self) -> (r: Self) {
        BinaryField2b { c0: self.c0 != rhs.c0, c1: self.c1 != rhs.c1 }
    }

    fn mul(self, rhs: Self) -> (r: Self) {
        TaggedMul::<SchoolbookStrategy>::mul(self, rhs)
    }

    fn is_equal(&self, rhs: &Self) -> (b: bool) {
        self.c0 == rhs.c0 && self.c1 == rhs.c1
    }

    open spec fn to_bytes_spec(self) -> Seq<u8> {
        seq![
            ((if self.c0 { 1int } else { 0int }) + (if self.c1 { 2int } else { 0int })) as u8,
        ]
    }

    fn write_bytes(&self, out: &mut Vec<u8>) {
        out.push(self.val());
    }

    proof fn lemma_bytes_injective(a: Self, b: Self) {
        if a.to_bytes_spec() == b.to_bytes_spec() {
            assert(a.to_bytes_spec()[0] == b.to_bytes_spec()[0]);
        }
    }

    proof fn lemma_add_laws(a: Self, b: Self, c: Self) {
    }

    proof fn lemma_mul_laws(a: Self, b: Self, c: Self) {
    }

    proof fn lemma_inverse(a: Self) {
    }

    proof fn lemma_square(a: Self) {
    }
}

impl TaggedMul<SchoolbookStrategy> for BinaryField2b {
    open spec fn tagged_mul_spec(self, rhs: Self) -> Self {
        product_2b(self, rhs)
    }

    fn mul(self, rhs: Self) -> (r: Self) {
        let z00 = self.c0 && rhs.c0;
        let z01 = self.c0 && rhs.c1;
        let z10 = self.c1 && rhs.c0;
        let z11 = self.c1 && rhs.c1;
        BinaryField2b { c0: z00 != z11, c1: (z01 != z10) != z11 }
    }
}

impl TaggedMul<KaratsubaStrategy> for BinaryField2b {
    open spec fn tagged_mul_spec(self, rhs: Self) -> Self {
        product_2b(self, rhs)
    }

    fn mul(self, rhs: Self) -> (r: Self) {
        let z0 = self.c0 && rhs.c0;
        let z2 = self.c1 && rhs.c1;
        let z1 = ((self.c0 != self.c1) && (rhs.c0 != rhs.c1)) != z0;
        BinaryField2b { c0: z0 != z2, c1: z1 }
    }
}

impl TaggedSquare<SchoolbookStrategy> for BinaryField2b {
    open spec fn tagged_square_spec(self) -> Self {
        product_2b(self, self)
    }

    fn square(self) -> (r: Self) {
        TaggedMul::<SchoolbookStrategy>::mul(self, self)
    }
}

impl TaggedInvertOrZero<SchoolbookStrategy> for BinaryField2b {
    open spec fn tagged_invert_or_zero_spec(self) -> Self {
        product_2b(self, self)
    }

    fn invert_or_zero(self) -> (r: Self) {
        TaggedSquare::<SchoolbookStrategy>::square(self)
    }
}

impl TaggedMulAlpha<SchoolbookStrategy> for BinaryField2b {
    open spec fn tagged_mul_alpha_spec(self) -> Self {
        product_2b(self, alpha_2b())
    }

    fn mul_alpha(self) -> (r: Self) {
        let alpha = BinaryField2b { c0: false, c1: true };
        TaggedMul::<SchoolbookStrategy>::mul(self, alpha)
    }
}

impl<Scalar: Copy> Broadcast<Scalar> for PackedPair<Scalar> {
    open spec fn broadcast_spec(scalar: Scalar) -> Self {
        PackedPair { lo: scalar, hi: scalar }
    }

    fn broadcast(scalar: Scalar) -> (r: Self) {
        PackedPair { lo: scalar, hi: scalar }
    }
}

/// The image of the basis element with the given number, or zero where
/// the map gives none.
pub open spec fn base_or_zero<OP: Field>(bases: Seq<OP>, i: int) -> OP {
    if 0 <= i < bases.len() {
        bases[i]
    } else {
        OP::zero()
    }
}

/// The image of an element of the four-element field under the linear map
/// with the given images of the basis `1, X`: the sum of the images of the
/// basis elements whose coefficient in the element is one.
pub open spec fn applied_2b<OP: Field>(bases: Seq<OP>, data: BinaryField2b) -> OP {
    (if data.c0 {
        base_or_zero(bases, 0)
    } else {
        OP::zero()
    }).add_spec(
        if data.c1 {
            base_or_zero(bases, 1)
        } else {
            OP::zero()
        },
    )
}

/// A linear map on the four-element field that looks at its argument
/// coefficient by coefficient.
pub struct PairwiseTransformation<OP> {
    pub bases: Vec<OP>,
}

impl<OP: Field> Transformation<BinaryField2b, OP> for PairwiseTransformation<OP> {
    open spec fn transform_spec(&self, data: BinaryField2b) -> OP {
        applied_2b(self.bases@, data)
    }

    fn transform(&self, data: &BinaryField2b) -> (r: OP) {
        let first = if data.c0 && self.bases.len() > 0 {
            self.bases[0]
        } else {
            OP::zero_value()
        };
        let second = if data.c1 && self.bases.len() > 1 {
            self.bases[1]
        } else {
            OP::zero_value()
        };
        first.add(second)
    }
}

impl<OP: Field> TaggedPackedTransformationFactory<SchoolbookStrategy, OP> for BinaryField2b {
    type PackedTransformation = PairwiseTransformation<OP>;

    open spec fn applied(bases: Seq<OP>, data: Self) -> OP {
        applied_2b(bases, data)
    }

    fn make_packed_transformation(transformation: FieldAffineTransformation<OP>) -> (r:
        Self::PackedTransformation) {
        PairwiseTransformation { bases: transformation.bases }
    }
}

impl<OP: Field> PackedTransformationFactory<OP> for BinaryField2b {
    type PackedTransformation = PairwiseTransformation<OP>;

    open spec fn applied(bases: Seq<OP>, data: Self) -> OP {
        applied_2b(bases, data)
    }

    fn make_packed_transformation(transformation: FieldAffineTransformation<OP>) -> (r:
        Self::PackedTransformation) {
        PairwiseTransformation { bases: transformation.bases }
    }
}

} // verus!
