use evalcheck::arithmetic_traits::{
    Broadcast, FieldAffineTransformation, InvertOrZero, MulAlpha, PackedTransformationFactory,
    Square, TaggedInvertOrZero, TaggedMul, TaggedMulAlpha, TaggedPackedTransformationFactory,
    TaggedSquare, Transformation,
};
use evalcheck::binary_field::{
    BinaryField1b, BinaryField2b, KaratsubaStrategy, PackedPair, SchoolbookStrategy,
};
use evalcheck::field::{invert, is_zero, Field};

fn f(v: u8) -> BinaryField2b {
    BinaryField2b::new(v)
}

const MUL_TABLE: [[u8; 4]; 4] = [[0, 0, 0, 0], [0, 1, 2, 3], [0, 2, 3, 1], [0, 3, 1, 2]];

#[test]
fn four_element_field_multiplies_by_its_table() {
    for a in 0..4u8 {
        for b in 0..4u8 {
            assert_eq!(Field::mul(f(a), f(b)).val(), MUL_TABLE[a as usize][b as usize]);
        }
    }
}

#[test]
fn both_strategies_compute_the_same_product() {
    for a in 0..4u8 {
        for b in 0..4u8 {
            let schoolbook = TaggedMul::<SchoolbookStrategy>::mul(f(a), f(b));
            let karatsuba = TaggedMul::<KaratsubaStrategy>::mul(f(a), f(b));
            assert_eq!(schoolbook.val(), MUL_TABLE[a as usize][b as usize]);
            assert_eq!(karatsuba.val(), MUL_TABLE[a as usize][b as usize]);
        }
    }
}

#[test]
fn addition_and_subtraction_are_bitwise_exclusive_or() {
    for a in 0..4u8 {
        for b in 0..4u8 {
            assert_eq!(f(a).add(f(b)).val(), a ^ b);
            assert_eq!(f(a).sub(f(b)).val(), a ^ b);
        }
    }
}

#[test]
fn every_nonzero_element_has_an_inverse() {
    assert!(<BinaryField2b as Field>::zero_value().is_equal(&f(0)));
    assert_eq!(<BinaryField2b as Field>::one_value().val(), 1);
    assert!(invert(f(0)).is_none());
    assert!(is_zero(&f(0)));
    for a in 1..4u8 {
        let inverse = invert(f(a)).unwrap();
        assert_eq!(Field::mul(f(a), inverse).val(), 1);
        assert_eq!(InvertOrZero::invert_or_zero(f(a)).val(), inverse.val());
        assert_eq!(TaggedInvertOrZero::<SchoolbookStrategy>::invert_or_zero(f(a)).val(), inverse.val());
        assert!(!is_zero(&f(a)));
    }
    assert_eq!(InvertOrZero::invert_or_zero(f(0)).val(), 0);
    assert_eq!(invert(f(2)).unwrap().val(), 3);
}

#[test]
fn square_and_mul_alpha_agree_with_multiplication() {
    for a in 0..4u8 {
        assert_eq!(Square::square(f(a)).val(), MUL_TABLE[a as usize][a as usize]);
        assert_eq!(TaggedSquare::<SchoolbookStrategy>::square(f(a)).val(), MUL_TABLE[a as usize][a as usize]);
        assert_eq!(MulAlpha::mul_alpha(f(a)).val(), MUL_TABLE[a as usize][2]);
        assert_eq!(TaggedMulAlpha::<SchoolbookStrategy>::mul_alpha(f(a)).val(), MUL_TABLE[a as usize][2]);
    }
}

#[test]
fn two_element_field() {
    let zero = BinaryField1b::new(0);
    let one = BinaryField1b::new(1);
    assert_eq!(BinaryField1b::new(3).val(), 1);
    assert_eq!(one.add(one).val(), 0);
    assert_eq!(one.add(zero).val(), 1);
    assert_eq!(one.mul(one).val(), 1);
    assert_eq!(one.mul(zero).val(), 0);
    assert_eq!(one.sub(one).val(), 0);
    assert!(invert(zero).is_none());
    assert_eq!(invert(one).unwrap().val(), 1);
    assert_eq!(Square::square(one).val(), 1);
    assert_eq!(MulAlpha::mul_alpha(one).val(), 1);
    assert_eq!(InvertOrZero::invert_or_zero(zero).val(), 0);
}

#[test]
fn elements_are_written_as_one_byte() {
    let mut out = vec![9u8];
    f(3).write_bytes(&mut out);
    BinaryField1b::new(1).write_bytes(&mut out);
    f(0).write_bytes(&mut out);
    assert_eq!(out, vec![9, 3, 1, 0]);
}

#[test]
fn broadcast_fills_every_position() {
    let pair: PackedPair<BinaryField2b> = Broadcast::broadcast(f(2));
    assert_eq!(pair.lo.val(), 2);
    assert_eq!(pair.hi.val(), 2);
}

#[test]
fn linear_map_adds_the_images_of_the_set_coefficients() {
    let bases = vec![f(3), f(2)];
    let tagged = <BinaryField2b as TaggedPackedTransformationFactory<
        SchoolbookStrategy,
        BinaryField2b,
    >>::make_packed_transformation(FieldAffineTransformation { bases: bases.clone() });
    let plain = <BinaryField2b as PackedTransformationFactory<BinaryField2b>>::make_packed_transformation(
        FieldAffineTransformation { bases },
    );
    let expected = [0u8, 3, 2, 1];
    for a in 0..4u8 {
        assert_eq!(tagged.transform(&f(a)).val(), expected[a as usize]);
        assert_eq!(plain.transform(&f(a)).val(), expected[a as usize]);
    }
    let short = <BinaryField2b as PackedTransformationFactory<BinaryField2b>>::make_packed_transformation(
        FieldAffineTransformation { bases: vec![f(2)] },
    );
    assert_eq!(short.transform(&f(3)).val(), 2);
}
