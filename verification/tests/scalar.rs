use raytracer::scalar::Scalar;

fn scalar(x: f32) -> Scalar {
    Scalar::from_bits(x.to_bits()).unwrap()
}

fn number(s: Scalar) -> f32 {
    f32::from_bits(s.to_bits())
}

fn samples() -> Vec<f32> {
    vec![
        f32::NEG_INFINITY,
        f32::MIN,
        -1000.5,
        -1.0,
        -0.001,
        -f32::MIN_POSITIVE,
        -1.0e-45,
        0.0,
        1.0e-45,
        f32::MIN_POSITIVE,
        0.001,
        0.5,
        1.0,
        2.0,
        1000.5,
        f32::MAX,
        f32::INFINITY,
    ]
}

#[test]
fn scalars_order_as_their_numbers_do() {
    let xs = samples();
    for a in &xs {
        for b in &xs {
            assert_eq!(scalar(*a).lt(&scalar(*b)), a < b);
            assert_eq!(scalar(*a).le(&scalar(*b)), a <= b);
            assert_eq!(scalar(*a) == scalar(*b), a == b);
        }
    }
}

#[test]
fn scalars_come_back_as_the_same_number() {
    for a in samples() {
        assert_eq!(number(scalar(a)).to_bits(), a.to_bits());
    }
}

#[test]
fn not_a_number_is_no_scalar() {
    assert_eq!(Scalar::from_bits(f32::NAN.to_bits()), None);
    assert_eq!(Scalar::from_bits(0x7f80_0001), None);
    assert_eq!(Scalar::from_bits(0xff80_0001), None);
    assert_eq!(Scalar::from_bits(0xffff_ffff), None);
    assert!(Scalar::from_bits(0x7f80_0000).is_some());
    assert!(Scalar::from_bits(0xff80_0000).is_some());
}

#[test]
fn both_zeros_are_one_scalar() {
    assert_eq!(scalar(-0.0), scalar(0.0));
    assert_eq!(scalar(-0.0), Scalar::zero());
    assert_eq!(scalar(-0.0).to_bits(), 0);
    assert_eq!(Scalar::zero().to_bits(), 0);
}

#[test]
fn bit_patterns_of_known_numbers() {
    assert_eq!(scalar(1.0).to_bits(), 0x3f80_0000);
    assert_eq!(scalar(-2.0).to_bits(), 0xc000_0000);
    assert_eq!(number(Scalar::from_bits(0x3f00_0000).unwrap()), 0.5);
    assert_eq!(number(Scalar::from_bits(0xbf80_0000).unwrap()), -1.0);
}

#[test]
fn infinities_bound_all_scalars() {
    assert_eq!(number(Scalar::infinity()), f32::INFINITY);
    assert_eq!(number(Scalar::neg_infinity()), f32::NEG_INFINITY);
    for a in samples() {
        assert!(scalar(a).le(&Scalar::infinity()));
        assert!(Scalar::neg_infinity().le(&scalar(a)));
    }
}

#[test]
fn min_and_max_pick_the_number() {
    let xs = samples();
    for a in &xs {
        for b in &xs {
            assert_eq!(number(scalar(*a).min(scalar(*b))), a.min(*b));
            assert_eq!(number(scalar(*a).max(scalar(*b))), a.max(*b));
        }
    }
    assert_eq!(number(scalar(3.0).min(scalar(-4.0))), -4.0);
    assert_eq!(number(scalar(3.0).max(scalar(-4.0))), 3.0);
}
