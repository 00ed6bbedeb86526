use vstd::prelude::*;

verus! {

/// Value that can be multiplied by itself.
pub trait Square: Sized {
    /// The value multiplied by itself.
    spec fn square_spec(self) -> Self;

    /// Returns the value multiplied by itself.
    fn square(self) -> (r: Self)
        ensures
            r == self.square_spec(),
    ;
}

/// Value that can be inverted.
pub trait InvertOrZero: Sized {
    /// The multiplicative inverse of the value, or zero when the value is zero.
    spec fn invert_or_zero_spec(self) -> Self;

    /// Returns the inverted value, or zero in case `self` is zero.
    fn invert_or_zero(self) -> (r: Self)
        ensures
            r == self.invert_or_zero_spec(),
    ;
}

/// Value that can be multiplied by alpha, the generator of its tower level.
pub trait MulAlpha: Sized {
    /// The value multiplied by alpha.
    spec fn mul_alpha_spec(self) -> Self;

    /// Multiply self by alpha.
    fn mul_alpha(self) -> (r: Self)
        ensures
            r == self.mul_alpha_spec(),
    ;
}

/// Value that can be filled with `Scalar`.
pub trait Broadcast<Scalar>: Sized {
    /// The value all of whose positions hold `scalar`.
    spec fn broadcast_spec(scalar: Scalar) -> Self;

    /// Set `scalar` value to all the positions.
    fn broadcast(scalar: Scalar) -> (r: Self)
        ensures
            r == Self::broadcast_spec(scalar),
    ;
}

/// Multiplication that is parameterized with some strategy.
pub trait TaggedMul<Strategy>: Sized {
    /// The product that every strategy has to compute.
    spec fn tagged_mul_spec(self, rhs: Self) -> Self;

    fn mul(self, rhs: Self) -> (r: Self)
        ensures
            r == self.tagged_mul_spec(rhs),
    ;
}

/// Square operation that is parameterized with some strategy.
pub trait TaggedSquare<Strategy>: Sized {
    /// The square that every strategy has to compute.
    spec fn tagged_square_spec(self) -> Self;

    fn square(self) -> (r: Self)
        ensures
            r == self.tagged_square_spec(),
    ;
}

/// Invert or zero operation that is parameterized with some strategy.
pub trait TaggedInvertOrZero<Strategy>: Sized {
    /// The inverse (or zero) that every strategy has to compute.
    spec fn tagged_invert_or_zero_spec(self) -> Self;

    fn invert_or_zero(self) -> (r: Self)
        ensures
            r == self.tagged_invert_or_zero_spec(),
    ;
}

/// Multiply by alpha operation that is parameterized with some strategy.
pub trait TaggedMulAlpha<Strategy>: Sized {
    /// The product with alpha that every strategy has to compute.
    spec fn tagged_mul_alpha_spec(self) -> Self;

    fn mul_alpha(self) -> (r: Self)
        ensures
            r == self.tagged_mul_alpha_spec(),
    ;
}

/// A map from values of one type to values of another.
pub trait Transformation<Input, Output> {
    /// The image of `data`.
    spec fn transform_spec(&self, data: Input) -> Output;

    fn transform(&self, data: &Input) -> (r: Output)
        ensures
            r == self.transform_spec(*data),
    ;
}

/// A linear map on a binary field, given by the images of the elements of
/// its basis over the field with two elements.
pub struct FieldAffineTransformation<Scalar> {
    pub bases: Vec<Scalar>,
}

/// Affine transformation factory that is parameterized with some strategy.
pub trait TaggedPackedTransformationFactory<Strategy, OP>: Sized {
    type PackedTransformation: Transformation<Self, OP>;

    /// The image of `data` under the linear map with the given images of
    /// the basis.
    spec fn applied(bases: Seq<OP>, data: Self) -> OP;

    fn make_packed_transformation(transformation: FieldAffineTransformation<OP>) -> (r:
        Self::PackedTransformation)
        ensures
            forall|data: Self| #[trigger]
                r.transform_spec(data) == Self::applied(transformation.bases@, data),
    ;
}

/// Affine transformation factory of a type that has settled on a strategy.
pub trait PackedTransformationFactory<OP>: Sized {
    type PackedTransformation: Transformation<Self, OP>;

    /// The image of `data` under the linear map with the given images of
    /// the basis.
    spec fn applied(bases: Seq<OP>, data: Self) -> OP;

    fn make_packed_transformation(transformation: FieldAffineTransformation<OP>) -> (r:
        Self::PackedTransformation)
        ensures
            forall|data: Self| #[trigger]
                r.transform_spec(data) == Self::applied(transformation.bases@, data),
    ;
}

} // verus!
