use bandits::not_nan::{
    NotNan, INFINITY_BITS, MAX_BITS, MINUS_ONE_BITS, ONE_BITS, SIGN_BIT,
};

fn number(x: f64) -> NotNan {
    NotNan::new(x.to_bits()).unwrap()
}

fn table() -> Vec<f64> {
    vec![
        f64::NEG_INFINITY,
        -f64::MAX,
        -1e300,
        -100.0,
        -1.0000000000000002,
        -1.0,
        -0.5,
        -f64::MIN_POSITIVE,
        -5e-324,
        -0.0,
        0.0,
        5e-324,
        1e-320,
        f64::MIN_POSITIVE,
        1e-9,
        0.5,
        0.9999999999999999,
        1.0,
        1.0000000000000002,
        2.0,
        100.0,
        1e300,
        f64::MAX,
        f64::INFINITY,
    ]
}

#[test]
fn order_agrees_with_the_doubles() {
    let values = table();
    for a in values.iter() {
        for b in values.iter() {
            let x = number(*a);
            let y = number(*b);
            assert_eq!(x.lt(&y), *a < *b, "{} < {}", a, b);
            assert_eq!(x.gt(&y), *a > *b, "{} > {}", a, b);
            assert_eq!(x.equals(&y), *a == *b, "{} == {}", a, b);
        }
    }
}

#[test]
fn the_two_zeros_are_equal() {
    let plus = number(0.0);
    let minus = number(-0.0);
    assert!(plus.equals(&minus));
    assert!(!plus.lt(&minus));
    assert!(!minus.lt(&plus));
    assert_ne!(plus.to_bits(), minus.to_bits());
}

#[test]
fn new_refuses_every_nan() {
    assert!(NotNan::new(f64::NAN.to_bits()).is_err());
    assert!(NotNan::new((-f64::NAN).to_bits()).is_err());
    assert!(NotNan::new(INFINITY_BITS + 1).is_err());
    assert!(NotNan::new(SIGN_BIT + INFINITY_BITS + 1).is_err());
    assert!(NotNan::new(0x7FF8_0000_0000_0000).is_err());
    assert!(NotNan::new(u64::MAX).is_err());
    assert!(NotNan::new(0x7FFF_FFFF_FFFF_FFFF).is_err());
}

#[test]
fn new_takes_every_number() {
    for x in table() {
        let held = NotNan::new(x.to_bits()).unwrap();
        assert_eq!(held.to_bits(), x.to_bits());
        assert!(!f64::from_bits(held.to_bits()).is_nan());
    }
    assert_eq!(NotNan::new(INFINITY_BITS).unwrap().to_bits(), f64::INFINITY.to_bits());
    assert_eq!(
        NotNan::new(SIGN_BIT + INFINITY_BITS).unwrap().to_bits(),
        f64::NEG_INFINITY.to_bits()
    );
}

#[test]
fn constants_are_the_named_doubles() {
    assert_eq!(NotNan::zero().to_bits(), 0.0f64.to_bits());
    assert_eq!(NotNan::one().to_bits(), 1.0f64.to_bits());
    assert_eq!(NotNan::minus_one().to_bits(), (-1.0f64).to_bits());
    assert_eq!(NotNan::max_value().to_bits(), f64::MAX.to_bits());
    assert_eq!(ONE_BITS, 1.0f64.to_bits());
    assert_eq!(MINUS_ONE_BITS, (-1.0f64).to_bits());
    assert_eq!(MAX_BITS, f64::MAX.to_bits());
    assert_eq!(INFINITY_BITS, f64::INFINITY.to_bits());
    assert_eq!(SIGN_BIT, (-0.0f64).to_bits());
}

#[test]
fn a_copy_is_the_same_number() {
    let x = number(0.125);
    let y = x;
    let z = x.clone();
    assert_eq!(x.to_bits(), y.to_bits());
    assert_eq!(x.to_bits(), z.to_bits());
}
